//! The parser: recursive descent with operator-precedence climbing.
//!
//! Parse errors are accumulated, never thrown at first sight: on a missing
//! structurally required token the parser records what it expected and what
//! it found, resynchronizes at the next statement boundary, and goes on.

pub mod grammar;
pub mod parse_stmt;

use vstd::prelude::*;
use crate::ast::{Expression, Statement, StmtList};
use crate::parser::grammar::{
    SpExpr, SpStmt, ahead, expr_like, opt_expr_like, opt_stmt_like, sp_block, sp_chain, sp_expr,
    sp_finish, sp_if, sp_prefix, sp_program, sp_skip_semi, sp_statement, sp_stmt_list, sp_sync,
    stmt_like, tkind, within,
};
use crate::lexer::{lex_all, tokens_from};
use crate::object::{Fixed, in_i64};
use crate::token::{STok, Token, TokenKind};

verus! {

/// The lowest binding level: the starting threshold for any standalone
/// expression, including the right-hand side of `let` and `return`.
pub const LEVEL_0: u8 = 0;

/// The binding level of prefix operators: above every infix operator.
pub const LEVEL_PREFIX: u8 = 9;

/// The infix binding level of a token kind; `0` for tokens that are not
/// infix operators, so that they end an expression.
pub open spec fn infix_level_s(k: TokenKind) -> u8 {
    match k {
        TokenKind::Or => 1u8,
        TokenKind::And => 2u8,
        TokenKind::BitOr => 3u8,
        TokenKind::BitAnd => 4u8,
        TokenKind::EqualTo => 5u8,
        TokenKind::NotEqualTo => 5u8,
        TokenKind::Less => 6u8,
        TokenKind::Greater => 6u8,
        TokenKind::LessEq => 6u8,
        TokenKind::GreaterEq => 6u8,
        TokenKind::Plus => 7u8,
        TokenKind::Minus => 7u8,
        TokenKind::Asterisk => 8u8,
        TokenKind::Slash => 8u8,
        _ => 0u8,
    }
}

fn infix_level(k: TokenKind) -> (l: u8)
    ensures
        l == infix_level_s(k),
{
    match k {
        TokenKind::Or => 1,
        TokenKind::And => 2,
        TokenKind::BitOr => 3,
        TokenKind::BitAnd => 4,
        TokenKind::EqualTo => 5,
        TokenKind::NotEqualTo => 5,
        TokenKind::Less => 6,
        TokenKind::Greater => 6,
        TokenKind::LessEq => 6,
        TokenKind::GreaterEq => 6,
        TokenKind::Plus => 7,
        TokenKind::Minus => 7,
        TokenKind::Asterisk => 8,
        TokenKind::Slash => 8,
        _ => 0,
    }
}

/// A parse error: what was required, what stood there, and where.
#[derive(Clone, Copy, PartialEq, Eq, Structural, Debug)]
pub enum ParseError {
    /// A structurally required token was missing.
    Expected { expected: TokenKind, got: TokenKind, at: usize },
    /// No expression can start with this token.
    NoPrefix { got: TokenKind, at: usize },
    /// A numeric literal whose value the runtime cannot represent.
    BadNumber { at: usize },
}

// ---------------------------------------------------------------------------
// Numeric literal values
// ---------------------------------------------------------------------------

/// The number named by a run of digits, underscores skipped.
pub open spec fn digits_val(s: Seq<u8>) -> int
    decreases s.len(),
{
    if s.len() == 0 {
        0
    } else {
        let r = digits_val(s.drop_last());
        let c = s.last();
        if 48 <= c <= 57 {
            r * 10 + (c - 48)
        } else {
            r
        }
    }
}

/// How many of the bytes are digits.
pub open spec fn digit_count(s: Seq<u8>) -> nat
    decreases s.len(),
{
    if s.len() == 0 {
        0
    } else {
        digit_count(s.drop_last()) + (if 48 <= s.last() <= 57 {
            1nat
        } else {
            0nat
        })
    }
}

/// Ten to the `n`.
pub open spec fn p10s(n: nat) -> int
    decreases n,
{
    if n == 0 {
        1
    } else {
        10 * p10s((n - 1) as nat)
    }
}

proof fn lemma_digits_val_nonneg(s: Seq<u8>)
    ensures
        digits_val(s) >= 0,
    decreases s.len(),
{
    if s.len() > 0 {
        lemma_digits_val_nonneg(s.drop_last());
    }
}

proof fn lemma_digits_val_bound(s: Seq<u8>)
    ensures
        digits_val(s) < p10s(digit_count(s)),
        p10s(digit_count(s)) >= 1,
    decreases s.len(),
{
    if s.len() == 0 {
    } else {
        let p = s.drop_last();
        lemma_digits_val_bound(p);
        lemma_digits_val_nonneg(p);
        let c = s.last();
        if 48 <= c <= 57 {
            assert(digit_count(s) == digit_count(p) + 1);
            assert(p10s(digit_count(s)) == 10 * p10s(digit_count(p)));
            assert(digits_val(p) * 10 + (c - 48) < 10 * p10s(digit_count(p))) by (nonlinear_arith)
                requires
                    digits_val(p) < p10s(digit_count(p)),
                    0 <= c - 48 <= 9,
            ;
        }
    }
}

/// The sentinel bound of the capped accumulator: past it, the exact value no
/// longer matters, only that it is too large.
pub const DIG_CAP: u128 = 18_446_744_073_709_551_615;

/// Accumulates the digits of `s[a..b]`, capped: the result is the exact
/// value when that value is at most the cap, and otherwise some value above
/// the cap.
fn digits_acc(s: &[u8], a: usize, b: usize) -> (r: u128)
    requires
        a <= b <= s.len(),
    ensures
        digits_val(s@.subrange(a as int, b as int)) <= DIG_CAP ==> r == digits_val(
            s@.subrange(a as int, b as int),
        ),
        digits_val(s@.subrange(a as int, b as int)) > DIG_CAP ==> r > DIG_CAP,
{
    let mut r: u128 = 0;
    let mut i: usize = a;
    proof {
        assert(s@.subrange(a as int, a as int) =~= Seq::<u8>::empty());
    }
    while i < b
        invariant
            a <= i <= b <= s.len(),
            digits_val(s@.subrange(a as int, i as int)) <= DIG_CAP ==> r == digits_val(
                s@.subrange(a as int, i as int),
            ),
            digits_val(s@.subrange(a as int, i as int)) > DIG_CAP ==> r > DIG_CAP,
            r <= 10 * (DIG_CAP as u128) + 9,
        decreases b - i,
    {
        let ghost pre = s@.subrange(a as int, i as int);
        let c = s[i];
        proof {
            assert(s@.subrange(a as int, i as int + 1) =~= pre.push(c));
            assert(pre.push(c).drop_last() =~= pre);
            lemma_digits_val_nonneg(pre);
        }
        if 48 <= c && c <= 57 {
            if r <= DIG_CAP {
                r = r * 10 + ((c - 48) as u128);
            }
        }
        i += 1;
    }
    r
}

/// The number an integer literal names: its digits, negated after a leading
/// minus sign.
pub open spec fn int_lit_val(l: Seq<u8>) -> int {
    if l.len() > 0 && l[0] == 45 {
        -digits_val(l.subrange(1, l.len() as int))
    } else {
        digits_val(l)
    }
}

/// Parses an integer literal's value; `None` exactly when the value does
/// not fit the runtime's integers.
pub fn parse_int_lit(lit: &[u8]) -> (r: Option<i64>)
    ensures
        match r {
            Some(v) => v as int == int_lit_val(lit@) && in_i64(int_lit_val(lit@)),
            None => !in_i64(int_lit_val(lit@)),
        },
{
    let neg = lit.len() > 0 && lit[0] == 45;
    let start: usize = if neg {
        1
    } else {
        0
    };
    proof {
        if !neg {
            assert(lit@.subrange(0, lit@.len() as int) =~= lit@);
        }
        lemma_digits_val_nonneg(lit@.subrange(start as int, lit@.len() as int));
    }
    let m = digits_acc(lit, start, lit.len());
    if neg {
        if m > 9_223_372_036_854_775_808u128 {
            None
        } else {
            Some((-(m as i128)) as i64)
        }
    } else {
        if m > 9_223_372_036_854_775_807u128 {
            None
        } else {
            Some(m as i64)
        }
    }
}

/// The position of the first dot at or after `i`, or the length if none.
pub open spec fn dot_pos(l: Seq<u8>, i: nat) -> nat
    decreases l.len() - i,
{
    if i >= l.len() {
        l.len()
    } else if l[i as int] == 46 {
        i
    } else {
        dot_pos(l, i + 1)
    }
}

proof fn lemma_dot_pos_bounds(l: Seq<u8>, i: nat)
    requires
        i <= l.len(),
    ensures
        i <= dot_pos(l, i) <= l.len(),
    decreases l.len() - i,
{
    if i < l.len() && l[i as int] != 46 {
        lemma_dot_pos_bounds(l, i + 1);
    }
}

fn dot_find(l: &[u8], i: usize) -> (r: usize)
    requires
        i <= l.len(),
    ensures
        r == dot_pos(l@, i as nat),
        i <= r <= l.len(),
    decreases l.len() - i,
{
    if i >= l.len() {
        l.len()
    } else if l[i] == 46 {
        i
    } else {
        dot_find(l, i + 1)
    }
}

/// Counts the digits of `s[a..b]`.
fn count_digits(s: &[u8], a: usize, b: usize) -> (r: usize)
    requires
        a <= b <= s.len(),
    ensures
        r == digit_count(s@.subrange(a as int, b as int)),
        r <= b - a,
{
    let mut r: usize = 0;
    let mut i: usize = a;
    proof {
        assert(s@.subrange(a as int, a as int) =~= Seq::<u8>::empty());
    }
    while i < b
        invariant
            a <= i <= b <= s.len(),
            r == digit_count(s@.subrange(a as int, i as int)),
            r <= i - a,
        decreases b - i,
    {
        let ghost pre = s@.subrange(a as int, i as int);
        let c = s[i];
        proof {
            assert(s@.subrange(a as int, i as int + 1) =~= pre.push(c));
            assert(pre.push(c).drop_last() =~= pre);
        }
        if 48 <= c && c <= 57 {
            r += 1;
        }
        i += 1;
    }
    r
}

fn p10_x(n: usize) -> (r: u128)
    requires
        n <= 9,
    ensures
        r == p10s(n as nat),
        r >= 1,
{
    proof {
        reveal_with_fuel(p10s, 11);
    }
    if n == 0 {
        1
    } else if n == 1 {
        10
    } else if n == 2 {
        100
    } else if n == 3 {
        1_000
    } else if n == 4 {
        10_000
    } else if n == 5 {
        100_000
    } else if n == 6 {
        1_000_000
    } else if n == 7 {
        10_000_000
    } else if n == 8 {
        100_000_000
    } else {
        1_000_000_000
    }
}

/// The number a fractional literal names, on the fixed scale: the whole
/// part scaled up, plus the fraction digits padded to nine places; negated
/// after a leading minus sign.
pub open spec fn float_lit_scaled(l: Seq<u8>) -> int {
    let neg = l.len() > 0 && l[0] == 45;
    let start: nat = if neg {
        1nat
    } else {
        0nat
    };
    let d = dot_pos(l, start);
    let ip = digits_val(l.subrange(start as int, d as int));
    let fstart: nat = if d < l.len() {
        d + 1
    } else {
        l.len()
    };
    let fr = l.subrange(fstart as int, l.len() as int);
    let mag = ip * 1_000_000_000 + digits_val(fr) * p10s((9 - digit_count(fr)) as nat);
    if neg {
        -mag
    } else {
        mag
    }
}

/// Whether a fractional literal is representable: at most nine fraction
/// digits, and a scaled value within the runtime's range.
pub open spec fn float_lit_ok(l: Seq<u8>) -> bool {
    let neg = l.len() > 0 && l[0] == 45;
    let start: nat = if neg {
        1nat
    } else {
        0nat
    };
    let d = dot_pos(l, start);
    let fstart: nat = if d < l.len() {
        d + 1
    } else {
        l.len()
    };
    let fr = l.subrange(fstart as int, l.len() as int);
    digit_count(fr) <= 9 && in_i64(float_lit_scaled(l))
}

/// Parses a fractional literal's exact value; `None` exactly when the
/// literal is not representable.
pub fn parse_float_lit(lit: &[u8]) -> (r: Option<Fixed>)
    ensures
        match r {
            Some(f) => float_lit_ok(lit@) && f.n as int == float_lit_scaled(lit@),
            None => !float_lit_ok(lit@),
        },
{
    let neg = lit.len() > 0 && lit[0] == 45;
    let start: usize = if neg {
        1
    } else {
        0
    };
    let d = dot_find(lit, start);
    let fstart: usize = if d < lit.len() {
        d + 1
    } else {
        lit.len()
    };
    let ghost ip_s = digits_val(lit@.subrange(start as int, d as int));
    let ghost fr = lit@.subrange(fstart as int, lit@.len() as int);
    proof {
        lemma_digits_val_nonneg(lit@.subrange(start as int, d as int));
        lemma_digits_val_nonneg(fr);
        lemma_digits_val_bound(fr);
    }
    let ip_m = digits_acc(lit, start, d);
    let k = count_digits(lit, fstart, lit.len());
    if k > 9 {
        return None;
    }
    proof {
        lemma_p10_split(digit_count(fr));
    }
    if ip_m > 9_223_372_036u128 {
        // the whole part alone overflows the scale
        proof {
            assert(ip_s * 1_000_000_000 + digits_val(fr) * p10s((9 - digit_count(fr)) as nat)
                > 9_223_372_036_854_775_808) by (nonlinear_arith)
                requires
                    ip_s > 9_223_372_036,
                    digits_val(fr) >= 0,
                    p10s((9 - digit_count(fr)) as nat) >= 1,
            ;
        }
        return None;
    }
    let frv = digits_acc(lit, fstart, lit.len());
    let pw = p10_x(9 - k);
    proof {
        assert(p10s(digit_count(fr)) <= 1_000_000_000) by (nonlinear_arith)
            requires
                p10s(digit_count(fr)) * p10s((9 - digit_count(fr)) as nat) == 1_000_000_000,
                p10s((9 - digit_count(fr)) as nat) >= 1,
                p10s(digit_count(fr)) >= 1,
        ;
        assert(digits_val(fr) <= DIG_CAP);
        assert(frv == digits_val(fr));
        assert(pw == p10s((9 - digit_count(fr)) as nat));
        assert(digits_val(fr) * p10s((9 - digit_count(fr)) as nat) < 1_000_000_000)
            by (nonlinear_arith)
            requires
                digits_val(fr) < p10s(digit_count(fr)),
                digits_val(fr) >= 0,
                p10s((9 - digit_count(fr)) as nat) >= 1,
                p10s(digit_count(fr)) * p10s((9 - digit_count(fr)) as nat) == 1_000_000_000,
        ;
    }
    proof {
        assert(frv * pw < 1_000_000_000);
    }
    let mag = ip_m * 1_000_000_000u128 + frv * pw;
    if neg {
        if mag > 9_223_372_036_854_775_808u128 {
            None
        } else {
            Some(Fixed { n: (-(mag as i128)) as i64 })
        }
    } else {
        if mag > 9_223_372_036_854_775_807u128 {
            None
        } else {
            Some(Fixed { n: mag as i64 })
        }
    }
}

proof fn lemma_p10_split(k: nat)
    requires
        k <= 9,
    ensures
        p10s(k) * p10s((9 - k) as nat) == 1_000_000_000,
        p10s(k) >= 1,
        p10s((9 - k) as nat) >= 1,
{
    reveal_with_fuel(p10s, 11);
    assert(p10s(0) == 1);
    assert(p10s(1) == 10);
    assert(p10s(2) == 100);
    assert(p10s(3) == 1_000);
    assert(p10s(4) == 10_000);
    assert(p10s(5) == 100_000);
    assert(p10s(6) == 1_000_000);
    assert(p10s(7) == 10_000_000);
    assert(p10s(8) == 100_000_000);
    assert(p10s(9) == 1_000_000_000);
    if k == 0 {
    } else if k == 1 {
    } else if k == 2 {
    } else if k == 3 {
    } else if k == 4 {
    } else if k == 5 {
    } else if k == 6 {
    } else if k == 7 {
    } else if k == 8 {
    } else {
        assert(k == 9);
    }
}

// ---------------------------------------------------------------------------
// The parser
// ---------------------------------------------------------------------------

/// The current token kind of a parser is the grammar's `tkind` at its
/// cursor.
pub(crate) proof fn lemma_kind_bridge(p: Parser)
    ensures
        p.cur_kind_s() == tkind(p.toks_raw(), p.at()),
        p.toks().len() == p.toks_raw().len(),
{
    if p.at() < p.toks_raw().len() {
        assert(p.toks()[p.at() as int] == p.toks_raw()[p.at() as int]@);
    }
}

pub(crate) proof fn lemma_cat_empty(a: Seq<ParseError>)
    ensures
        a + Seq::<ParseError>::empty() == a,
{
    assert(a + Seq::<ParseError>::empty() =~= a);
}

pub(crate) proof fn lemma_cat_assoc(a: Seq<ParseError>, b: Seq<ParseError>, c: Seq<ParseError>)
    ensures
        (a + b) + c == a + (b + c),
{
    assert((a + b) + c =~= a + (b + c));
}

/// The parser: a pre-scanned token buffer, a cursor, and the accumulated
/// parse errors.
pub struct Parser {
    pub tokens: Vec<Token>,
    pub pos: usize,
    pub errors: Vec<ParseError>,
}

impl Parser {
    /// The token stream being parsed.
    pub open spec fn toks(&self) -> Seq<STok> {
        self.tokens@.map_values(|t: Token| t@)
    }

    /// The token buffer itself; the grammar is stated over it.
    pub open spec fn toks_raw(&self) -> Seq<Token> {
        self.tokens@
    }

    /// The cursor: the index of the current token.
    pub open spec fn at(&self) -> nat {
        self.pos as nat
    }

    /// The errors collected so far.
    pub open spec fn errs(&self) -> Seq<ParseError> {
        self.errors@
    }

    pub open spec fn wf(&self) -> bool {
        self.at() <= self.toks().len()
    }

    /// The kind of the current token; end-of-input once the buffer is spent.
    pub open spec fn cur_kind_s(&self) -> TokenKind {
        if self.at() < self.toks().len() {
            self.toks()[self.at() as int].kind
        } else {
            TokenKind::Eof
        }
    }

    /// What every parsing step preserves: the token buffer is unchanged, the
    /// cursor only moves forward, and earlier errors are kept, in order.
    pub open spec fn step_ok(pre: Parser, post: Parser) -> bool {
        &&& post.toks_raw() == pre.toks_raw()
        &&& post.toks() == pre.toks()
        &&& post.wf()
        &&& pre.at() <= post.at()
        &&& pre.errs().is_prefix_of(post.errs())
    }

    /// Builds a parser over the token stream of `source`.
    pub fn new(source: &[u8]) -> (p: Parser)
        ensures
            p.wf(),
            p.at() == 0,
            p.errs() == Seq::<ParseError>::empty(),
            p.toks() == tokens_from(source@, 0),
    {
        let tokens = lex_all(source);
        Parser { tokens, pos: 0, errors: Vec::new() }
    }

    /// The collected parse errors.
    pub fn errors(&self) -> (e: &Vec<ParseError>)
        ensures
            e@ == self.errs(),
    {
        &self.errors
    }

    pub(crate) fn cur_kind(&self) -> (k: TokenKind)
        requires
            self.wf(),
        ensures
            k == self.cur_kind_s(),
            k == tkind(self.toks_raw(), self.at()),
    {
        proof {
            lemma_kind_bridge(*self);
        }
        if self.pos < self.tokens.len() {
            proof {
                assert(self.toks()[self.pos as int] == self.tokens@[self.pos as int]@);
            }
            self.tokens[self.pos].kind
        } else {
            TokenKind::Eof
        }
    }

    pub(crate) fn cur_tok(&self) -> (t: Token)
        requires
            self.wf(),
            self.at() < self.toks().len(),
        ensures
            t@ == self.toks()[self.at() as int],
            t@ == self.toks_raw()[self.at() as int]@,
            t.kind == self.toks_raw()[self.at() as int].kind,
            t.kind == self.cur_kind_s(),
    {
        proof {
            assert(self.toks()[self.at() as int] == self.toks_raw()[self.at() as int]@);
        }
        self.tokens[self.pos].dup()
    }

    pub(crate) fn advance(&mut self)
        requires
            old(self).wf(),
        ensures
            final(self).toks_raw() == old(self).toks_raw(),
            final(self).toks() == old(self).toks(),
            final(self).errs() == old(self).errs(),
            final(self).wf(),
            old(self).at() < old(self).toks().len() ==> final(self).at() == old(self).at() + 1,
            old(self).at() >= old(self).toks().len() ==> final(self).at() == old(self).at(),
    {
        if self.pos < self.tokens.len() {
            self.pos = self.pos + 1;
        }
    }

    pub(crate) fn push_err(&mut self, e: ParseError)
        requires
            old(self).wf(),
        ensures
            final(self).toks_raw() == old(self).toks_raw(),
            final(self).toks() == old(self).toks(),
            final(self).at() == old(self).at(),
            final(self).wf(),
            final(self).errs() == old(self).errs().push(e),
            final(self).errs() == old(self).errs() + seq![e],
            final(self).errs().len() > old(self).errs().len(),
            old(self).errs().is_prefix_of(final(self).errs()),
    {
        self.errors.push(e);
        proof {
            assert(old(self).errs().is_prefix_of(final(self).errs()));
            assert(final(self).errs() =~= old(self).errs() + seq![e]);
        }
    }

    /// Parses one expression at the given binding level: a prefix production
    /// first, then every infix operator that binds tighter than `level`,
    /// folded left-associatively.
    pub fn parse_expression(&mut self, level: u8) -> (r: Option<Expression>)
        requires
            old(self).wf(),
        ensures
            Parser::step_ok(*old(self), *final(self)),
            r is Some ==> final(self).at() > old(self).at(),
            r is None ==> final(self).errs().len() > old(self).errs().len(),
            ({
                let m = sp_expr(old(self).toks_raw(), old(self).at(), level);
                opt_expr_like(r, m.res) && final(self).at() == m.pos && final(self).errs()
                    == old(self).errs() + m.errs
            }),
        decreases old(self).toks().len() - old(self).at(), 2int,
    {
        let ghost raw = self.toks_raw();
        let ghost p0 = self.at();
        let ghost m_p = sp_prefix(raw, p0);
        let left = match self.parse_prefix() {
            Some(e) => e,
            None => {
                return None;
            },
        };
        let ghost lspec = m_p.res->Some_0;
        proof {
            assert(within(m_p.pos, p0, raw.len()) == m_p.pos);
        }
        let r = self.parse_infix_chain(level, left, Ghost(lspec));
        proof {
            let m_c = sp_chain(raw, m_p.pos, level, lspec);
            lemma_cat_assoc(old(self).errs(), m_p.errs, m_c.errs);
        }
        r
    }

    /// Folds infix operators that bind tighter than `level` into `left`,
    /// left-associatively, until a weaker token ends the expression.
    pub(crate) fn parse_infix_chain(
        &mut self,
        level: u8,
        left: Expression,
        spec_left: Ghost<Expression>,
    ) -> (r: Option<Expression>)
        requires
            old(self).wf(),
            expr_like(left, spec_left@),
        ensures
            Parser::step_ok(*old(self), *final(self)),
            r is None ==> final(self).errs().len() > old(self).errs().len(),
            ({
                let m = sp_chain(old(self).toks_raw(), old(self).at(), level, spec_left@);
                opt_expr_like(r, m.res) && final(self).at() == m.pos && final(self).errs()
                    == old(self).errs() + m.errs
            }),
        decreases old(self).toks().len() - old(self).at(), 0int,
    {
        let ghost raw = self.toks_raw();
        let ghost p0 = self.at();
        let k = self.cur_kind();
        let lv = infix_level(k);
        if lv <= level {
            proof {
                lemma_cat_empty(old(self).errs());
            }
            return Some(left);
        }
        let op_tok = self.cur_tok();
        self.advance();
        let ghost m_rhs = sp_expr(raw, p0 + 1, lv);
        let right = match self.parse_expression(lv) {
            Some(e) => e,
            None => {
                return None;
            },
        };
        let folded = Expression::Infix {
            op: op_tok.kind,
            tok: op_tok,
            left: Box::new(left),
            right: Box::new(right),
        };
        let ghost fspec = Expression::Infix {
            op: raw[p0 as int].kind,
            tok: raw[p0 as int],
            left: Box::new(spec_left@),
            right: Box::new(m_rhs.res->Some_0),
        };
        proof {
            assert(expr_like(folded, fspec));
            assert(ahead(m_rhs.pos, p0 + 2, raw.len()) == m_rhs.pos);
        }
        let r = self.parse_infix_chain(level, folded, Ghost(fspec));
        proof {
            let m_c = sp_chain(raw, m_rhs.pos, level, fspec);
            lemma_cat_assoc(old(self).errs(), m_rhs.errs, m_c.errs);
        }
        r
    }

    /// Parses a prefix production: a literal, an identifier, a grouped
    /// expression, a unary operator, or an `if` expression.
    pub(crate) fn parse_prefix(&mut self) -> (r: Option<Expression>)
        requires
            old(self).wf(),
        ensures
            Parser::step_ok(*old(self), *final(self)),
            r is Some ==> final(self).at() > old(self).at(),
            r is None ==> final(self).errs().len() > old(self).errs().len(),
            old(self).cur_kind_s() == TokenKind::IntegerNum ==> ((r matches Some(e) ==> e matches
                Expression::IntLit { tok, value } && tok@ == old(self).toks()[old(self).at() as int]
                && value as int == int_lit_val(tok@.lit)) && (r is None ==> !in_i64(int_lit_val(
                old(self).toks()[old(self).at() as int].lit,
            )))),
            old(self).cur_kind_s() == TokenKind::FloatNum ==> ((r matches Some(e) ==> e matches
                Expression::FloatLit { tok, value } && tok@ == old(self).toks()[old(
                self,
            ).at() as int] && value.n as int == float_lit_scaled(tok@.lit)) && (r is None
                ==> !float_lit_ok(old(self).toks()[old(self).at() as int].lit))),
            old(self).cur_kind_s() == TokenKind::True ==> (r matches Some(e) ==> e matches
                Expression::BoolLit { tok, value } && tok@ == old(self).toks()[old(
                self,
            ).at() as int] && value == true),
            old(self).cur_kind_s() == TokenKind::False ==> (r matches Some(e) ==> e matches
                Expression::BoolLit { tok, value } && tok@ == old(self).toks()[old(
                self,
            ).at() as int] && value == false),
            old(self).cur_kind_s() == TokenKind::Str ==> (r matches Some(e) ==> e matches
                Expression::StrLit { tok } && tok@ == old(self).toks()[old(self).at() as int]),
            old(self).cur_kind_s() == TokenKind::Ident ==> (r matches Some(e) ==> e matches
                Expression::Ident { tok } && tok@ == old(self).toks()[old(self).at() as int]),
            ({
                let m = sp_prefix(old(self).toks_raw(), old(self).at());
                opt_expr_like(r, m.res) && final(self).at() == m.pos && final(self).errs()
                    == old(self).errs() + m.errs
            }),
        decreases old(self).toks().len() - old(self).at(), 1int,
    {
        let ghost raw = self.toks_raw();
        let ghost p0 = self.at();
        let k = self.cur_kind();
        match k {
            TokenKind::IntegerNum => {
                let at = self.pos;
                let t = self.cur_tok();
                self.advance();
                match parse_int_lit(t.literal().as_slice()) {
                    Some(v) => {
                        proof {
                            lemma_cat_empty(old(self).errs());
                        }
                        Some(Expression::IntLit { tok: t, value: v })
                    },
                    None => {
                        self.push_err(ParseError::BadNumber { at });
                        None
                    },
                }
            },
            TokenKind::FloatNum => {
                let at = self.pos;
                let t = self.cur_tok();
                self.advance();
                match parse_float_lit(t.literal().as_slice()) {
                    Some(v) => {
                        proof {
                            lemma_cat_empty(old(self).errs());
                        }
                        Some(Expression::FloatLit { tok: t, value: v })
                    },
                    None => {
                        self.push_err(ParseError::BadNumber { at });
                        None
                    },
                }
            },
            TokenKind::True => {
                let t = self.cur_tok();
                self.advance();
                proof {
                    lemma_cat_empty(old(self).errs());
                }
                Some(Expression::BoolLit { tok: t, value: true })
            },
            TokenKind::False => {
                let t = self.cur_tok();
                self.advance();
                proof {
                    lemma_cat_empty(old(self).errs());
                }
                Some(Expression::BoolLit { tok: t, value: false })
            },
            TokenKind::Str => {
                let t = self.cur_tok();
                self.advance();
                proof {
                    lemma_cat_empty(old(self).errs());
                }
                Some(Expression::StrLit { tok: t })
            },
            TokenKind::Ident => {
                let t = self.cur_tok();
                self.advance();
                proof {
                    lemma_cat_empty(old(self).errs());
                }
                Some(Expression::Ident { tok: t })
            },
            TokenKind::Not => {
                let t = self.cur_tok();
                self.advance();
                match self.parse_expression(LEVEL_PREFIX) {
                    Some(e) => Some(
                        Expression::Prefix { op: t.kind, tok: t, right: Box::new(e) },
                    ),
                    None => None,
                }
            },
            TokenKind::Minus => {
                let t = self.cur_tok();
                self.advance();
                match self.parse_expression(LEVEL_PREFIX) {
                    Some(e) => Some(
                        Expression::Prefix { op: t.kind, tok: t, right: Box::new(e) },
                    ),
                    None => None,
                }
            },
            TokenKind::LeftParen => {
                self.advance();
                let ghost m_sub = sp_expr(raw, p0 + 1, LEVEL_0);
                let inner = match self.parse_expression(LEVEL_0) {
                    Some(e) => e,
                    None => {
                        return None;
                    },
                };
                let close = self.cur_kind();
                if !matches!(close, TokenKind::RightParen) {
                    let at = self.pos;
                    let e = ParseError::Expected {
                        expected: TokenKind::RightParen,
                        got: close,
                        at,
                    };
                    self.push_err(e);
                    proof {
                        lemma_cat_assoc(old(self).errs(), m_sub.errs, seq![e]);
                    }
                    return None;
                }
                self.advance();
                Some(inner)
            },
            TokenKind::If => self.parse_if_expression(),
            _ => {
                let at = self.pos;
                self.push_err(ParseError::NoPrefix { got: k, at });
                None
            },
        }
    }

    /// Parses `if (cond) { ... }` with an optional alternative: either a
    /// block, or a nested `if` carried as a statement, which is how
    /// `else if` chains arise without a grammar rule of their own.
    pub(crate) fn parse_if_expression(&mut self) -> (r: Option<Expression>)
        requires
            old(self).wf(),
            old(self).cur_kind_s() == TokenKind::If,
        ensures
            Parser::step_ok(*old(self), *final(self)),
            r is Some ==> final(self).at() > old(self).at(),
            r is None ==> final(self).errs().len() > old(self).errs().len(),
            ({
                let m = sp_if(old(self).toks_raw(), old(self).at());
                opt_expr_like(r, m.res) && final(self).at() == m.pos && final(self).errs()
                    == old(self).errs() + m.errs
            }),
        decreases old(self).toks().len() - old(self).at(), 0int,
    {
        let ghost raw = self.toks_raw();
        let ghost p0 = self.at();
        proof {
            lemma_kind_bridge(*old(self));
        }
        let if_tok = self.cur_tok();
        self.advance();
        let open = self.cur_kind();
        if !matches!(open, TokenKind::LeftParen) {
            let at = self.pos;
            self.push_err(ParseError::Expected { expected: TokenKind::LeftParen, got: open, at });
            return None;
        }
        self.advance();
        let ghost m_cond = sp_expr(raw, p0 + 2, LEVEL_0);
        let cond = match self.parse_expression(LEVEL_0) {
            Some(e) => e,
            None => {
                return None;
            },
        };
        let close = self.cur_kind();
        if !matches!(close, TokenKind::RightParen) {
            let at = self.pos;
            let e = ParseError::Expected { expected: TokenKind::RightParen, got: close, at };
            self.push_err(e);
            proof {
                lemma_cat_assoc(old(self).errs(), m_cond.errs, seq![e]);
            }
            return None;
        }
        self.advance();
        proof {
            assert(ahead(m_cond.pos + 1, p0 + 1, raw.len()) == m_cond.pos + 1);
        }
        let body_open = self.cur_kind();
        if !matches!(body_open, TokenKind::LeftBrace) {
            let at = self.pos;
            let e = ParseError::Expected { expected: TokenKind::LeftBrace, got: body_open, at };
            self.push_err(e);
            proof {
                lemma_cat_assoc(old(self).errs(), m_cond.errs, seq![e]);
            }
            return None;
        }
        let ghost m_blk = sp_block(raw, m_cond.pos + 1);
        let consequence = match self.parse_block_statement() {
            Some(b) => b,
            None => {
                proof {
                    lemma_cat_assoc(old(self).errs(), m_cond.errs, m_blk.errs);
                }
                return None;
            },
        };
        let ghost m_bs = m_blk.res->Some_0;
        if matches!(self.cur_kind(), TokenKind::Else) {
            self.advance();
            proof {
                assert(ahead(m_blk.pos + 1, p0 + 1, raw.len()) == m_blk.pos + 1);
            }
            let ghost ep = m_blk.pos + 1;
            let after = self.cur_kind();
            if matches!(after, TokenKind::If) {
                let else_if_tok = self.cur_tok();
                let ghost m_sub = sp_if(raw, ep);
                match self.parse_if_expression() {
                    Some(e) => {
                        let alt_stmt = Statement::ExprStmt { tok: else_if_tok, expr: e };
                        proof {
                            assert(stmt_like(
                                alt_stmt,
                                Statement::ExprStmt {
                                    tok: raw[ep as int],
                                    expr: m_sub.res->Some_0,
                                },
                            ));
                            lemma_cat_assoc(old(self).errs(), m_cond.errs + m_blk.errs, m_sub.errs);
                            lemma_cat_assoc(m_cond.errs, m_blk.errs, m_sub.errs);
                            lemma_cat_assoc(old(self).errs(), m_cond.errs, m_blk.errs);
                        }
                        Some(
                            Expression::If {
                                tok: if_tok,
                                cond: Box::new(cond),
                                consequence: Box::new(consequence),
                                alternative: Some(Box::new(alt_stmt)),
                            },
                        )
                    },
                    None => {
                        proof {
                            lemma_cat_assoc(old(self).errs(), m_cond.errs + m_blk.errs, m_sub.errs);
                            lemma_cat_assoc(m_cond.errs, m_blk.errs, m_sub.errs);
                            lemma_cat_assoc(old(self).errs(), m_cond.errs, m_blk.errs);
                        }
                        return None;
                    },
                }
            } else if matches!(after, TokenKind::LeftBrace) {
                let ghost m_b2 = sp_block(raw, ep);
                match self.parse_block_statement() {
                    Some(b) => {
                        proof {
                            lemma_cat_assoc(old(self).errs(), m_cond.errs + m_blk.errs, m_b2.errs);
                            lemma_cat_assoc(m_cond.errs, m_blk.errs, m_b2.errs);
                            lemma_cat_assoc(old(self).errs(), m_cond.errs, m_blk.errs);
                        }
                        Some(
                            Expression::If {
                                tok: if_tok,
                                cond: Box::new(cond),
                                consequence: Box::new(consequence),
                                alternative: Some(Box::new(b)),
                            },
                        )
                    },
                    None => {
                        proof {
                            lemma_cat_assoc(old(self).errs(), m_cond.errs + m_blk.errs, m_b2.errs);
                            lemma_cat_assoc(m_cond.errs, m_blk.errs, m_b2.errs);
                            lemma_cat_assoc(old(self).errs(), m_cond.errs, m_blk.errs);
                        }
                        return None;
                    },
                }
            } else {
                let at = self.pos;
                let e = ParseError::Expected { expected: TokenKind::LeftBrace, got: after, at };
                self.push_err(e);
                proof {
                    lemma_cat_assoc(old(self).errs(), m_cond.errs + m_blk.errs, seq![e]);
                    lemma_cat_assoc(m_cond.errs, m_blk.errs, seq![e]);
                    lemma_cat_assoc(old(self).errs(), m_cond.errs, m_blk.errs);
                }
                return None;
            }
        } else {
            proof {
                lemma_cat_assoc(old(self).errs(), m_cond.errs, m_blk.errs);
            }
            Some(
                Expression::If {
                    tok: if_tok,
                    cond: Box::new(cond),
                    consequence: Box::new(consequence),
                    alternative: None,
                },
            )
        }
    }

    /// Parses the whole input into the ordered sequence of its top-level
    /// statements, stopping at end-of-input; errors are collected, and
    /// parsing resumes at the next statement boundary after each one.
    pub fn programs(&mut self) -> (prog: Vec<Statement>)
        requires
            old(self).wf(),
        ensures
            Parser::step_ok(*old(self), *final(self)),
            final(self).cur_kind_s() == TokenKind::Eof,
            ({
                let m = sp_program(old(self).toks_raw(), old(self).at());
                prog@.len() == m.stmts.len() && (forall|i: int|
                    0 <= i < m.stmts.len() ==> stmt_like(#[trigger] prog@[i], m.stmts[i]))
                    && final(self).at() == m.pos && final(self).errs() == old(self).errs()
                    + m.errs
            }),
    {
        self.parse_program_rest()
    }

    /// Parses top-level statements until end-of-input, in order; a stray
    /// right brace is recorded and skipped.
    pub(crate) fn parse_program_rest(&mut self) -> (prog: Vec<Statement>)
        requires
            old(self).wf(),
        ensures
            Parser::step_ok(*old(self), *final(self)),
            final(self).cur_kind_s() == TokenKind::Eof,
            ({
                let m = sp_program(old(self).toks_raw(), old(self).at());
                prog@.len() == m.stmts.len() && (forall|i: int|
                    0 <= i < m.stmts.len() ==> stmt_like(#[trigger] prog@[i], m.stmts[i]))
                    && final(self).at() == m.pos && final(self).errs() == old(self).errs()
                    + m.errs
            }),
        decreases old(self).toks().len() - old(self).at(), 6int,
    {
        let ghost raw = self.toks_raw();
        let ghost p0 = self.at();
        let k = self.cur_kind();
        if matches!(k, TokenKind::Eof) {
            proof {
                lemma_cat_empty(old(self).errs());
            }
            return Vec::new();
        }
        if matches!(k, TokenKind::RightBrace) {
            let at = self.pos;
            let e = ParseError::NoPrefix { got: k, at };
            self.push_err(e);
            self.advance();
            let ghost m_rest = sp_program(raw, p0 + 1);
            let rest = self.parse_program_rest();
            proof {
                lemma_cat_assoc(old(self).errs(), seq![e], m_rest.errs);
            }
            return rest;
        }
        let ghost m_s = sp_statement(raw, p0);
        let s = self.parse_statement();
        proof {
            assert(ahead(m_s.pos, p0 + 1, raw.len()) == m_s.pos);
        }
        let ghost m_rest = sp_program(raw, m_s.pos);
        let mut rest = self.parse_program_rest();
        match s {
            Some(st) => {
                let ghost pre = rest@;
                rest.insert(0, st);
                proof {
                    let m = sp_program(raw, p0);
                    assert(rest@ =~= seq![st] + pre);
                    assert(rest@.len() == m.stmts.len());
                    assert forall|i: int| 0 <= i < m.stmts.len() implies stmt_like(
                        #[trigger] rest@[i],
                        m.stmts[i],
                    ) by {
                        if i == 0 {
                            assert(stmt_like(st, m_s.res->Some_0));
                        } else {
                            assert(rest@[i] == pre[i - 1]);
                            assert(m.stmts[i] == m_rest.stmts[i - 1]);
                        }
                    }
                    lemma_cat_assoc(old(self).errs(), m_s.errs, m_rest.errs);
                }
            },
            None => {
                proof {
                    lemma_cat_assoc(old(self).errs(), m_s.errs, m_rest.errs);
                }
            },
        }
        rest
    }
}

} // verus!
