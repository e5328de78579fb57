//! The evaluator: walks AST nodes and reduces them to runtime values.
//!
//! The semantics are stated once, as spec functions, and the executable
//! evaluator is proved to return exactly what they state. Evaluation never
//! panics: every failure is a typed `EvalError`.

use vstd::prelude::*;
use crate::ast::{Expression, Statement, StmtList, sl_seq};
use crate::object::{
    BaseValue, EvalError, Fixed, Object, fixed_add, fixed_add_s, fixed_div, fixed_div_s,
    fixed_mul, fixed_mul_s, fixed_neg, fixed_neg_s, fixed_sub, fixed_sub_s, in_i64, int_add,
    int_add_s, int_div, int_div_s, int_mul, int_mul_s, int_scaled, int_scaled_x, int_sub,
    int_sub_s, int_to_fixed, int_to_fixed_s, is_truthy, tag_of_obj, truthy_obj,
};
use crate::parser::grammar::{expr_like, list_like, stmt_like};
use crate::token::TokenKind;

verus! {

/// What a prefix operator yields on an already evaluated operand.
/// `!` coerces to truthiness and negates; `-` negates a number and keeps its
/// tag; anything else is a type mismatch or unsupported.
pub open spec fn apply_prefix_s(op: TokenKind, v: Object) -> Result<Object, EvalError> {
    if op == TokenKind::Not {
        Ok(Object::Base(BaseValue::Boolean(!truthy_obj(v))))
    } else if op == TokenKind::Minus {
        match v {
            Object::Base(BaseValue::Integer(i)) => if in_i64(-i) {
                Ok(Object::Base(BaseValue::Integer((-i) as i64)))
            } else {
                Err(EvalError::Overflow)
            },
            Object::Base(BaseValue::Float(f)) => match fixed_neg_s(f) {
                Ok(g) => Ok(Object::Base(BaseValue::Float(g))),
                Err(e) => Err(e),
            },
            _ => Err(EvalError::PrefixTypeMismatch { op, operand: tag_of_obj(v) }),
        }
    } else {
        Err(EvalError::Unsupported { kind: op })
    }
}

/// Equality of two evaluated values: numbers compare numerically across the
/// integer/float divide, booleans by identity, null equals null, and values
/// of mismatched types are never equal.
pub open spec fn value_eq_s(l: Object, r: Object) -> bool {
    match (l, r) {
        (Object::Base(a), Object::Base(b)) => base_eq_s(a, b),
        (Object::Null, Object::Null) => true,
        _ => false,
    }
}

/// Equality of two base values.
pub open spec fn base_eq_s(a: BaseValue, b: BaseValue) -> bool {
    match (a, b) {
        (BaseValue::Integer(x), BaseValue::Integer(y)) => x == y,
        (BaseValue::Float(x), BaseValue::Float(y)) => x.n == y.n,
        (BaseValue::Integer(x), BaseValue::Float(y)) => int_scaled(x as int) == y.n,
        (BaseValue::Float(x), BaseValue::Integer(y)) => x.n == int_scaled(y as int),
        (BaseValue::Boolean(x), BaseValue::Boolean(y)) => x == y,
        _ => false,
    }
}

/// A number on the fixed scale, for cross-type comparison: an integer is
/// widened exactly, a float is already scaled.
pub open spec fn scaled_of(b: BaseValue) -> int {
    match b {
        BaseValue::Integer(i) => int_scaled(i as int),
        BaseValue::Float(f) => f.n as int,
        BaseValue::Boolean(_) => 0,
    }
}

/// Whether a base value is numeric.
pub open spec fn is_numeric(b: BaseValue) -> bool {
    b is Integer || b is Float
}

/// What a comparison operator yields: numeric ordering after exact
/// promotion; non-numeric operands are a type mismatch.
pub open spec fn apply_compare_s(op: TokenKind, l: Object, r: Object) -> Result<
    Object,
    EvalError,
> {
    match (l, r) {
        (Object::Base(a), Object::Base(b)) => if is_numeric(a) && is_numeric(b) {
            let x = scaled_of(a);
            let y = scaled_of(b);
            if op == TokenKind::Less {
                Ok(Object::Base(BaseValue::Boolean(x < y)))
            } else if op == TokenKind::Greater {
                Ok(Object::Base(BaseValue::Boolean(x > y)))
            } else if op == TokenKind::LessEq {
                Ok(Object::Base(BaseValue::Boolean(x <= y)))
            } else {
                Ok(Object::Base(BaseValue::Boolean(x >= y)))
            }
        } else {
            Err(EvalError::InfixTypeMismatch { op, left: tag_of_obj(l), right: tag_of_obj(r) })
        },
        _ => Err(EvalError::InfixTypeMismatch { op, left: tag_of_obj(l), right: tag_of_obj(r) }),
    }
}

/// What an arithmetic operator yields: integer arithmetic when both
/// operands are integers, exact float arithmetic after promotion when
/// either operand is a float.
pub open spec fn apply_arith_s(op: TokenKind, l: Object, r: Object) -> Result<
    Object,
    EvalError,
> {
    match (l, r) {
        (Object::Base(BaseValue::Integer(a)), Object::Base(BaseValue::Integer(b))) => {
            let res = if op == TokenKind::Plus {
                int_add_s(a, b)
            } else if op == TokenKind::Minus {
                int_sub_s(a, b)
            } else if op == TokenKind::Asterisk {
                int_mul_s(a, b)
            } else {
                int_div_s(a, b)
            };
            match res {
                Ok(v) => Ok(Object::Base(BaseValue::Integer(v))),
                Err(e) => Err(e),
            }
        },
        (Object::Base(a), Object::Base(b)) => if is_numeric(a) && is_numeric(b) {
            match (widen_s(a), widen_s(b)) {
                (Ok(x), Ok(y)) => {
                    let res = if op == TokenKind::Plus {
                        fixed_add_s(x, y)
                    } else if op == TokenKind::Minus {
                        fixed_sub_s(x, y)
                    } else if op == TokenKind::Asterisk {
                        fixed_mul_s(x, y)
                    } else {
                        fixed_div_s(x, y)
                    };
                    match res {
                        Ok(v) => Ok(Object::Base(BaseValue::Float(v))),
                        Err(e) => Err(e),
                    }
                },
                (Err(e), _) => Err(e),
                (_, Err(e)) => Err(e),
            }
        } else {
            Err(EvalError::InfixTypeMismatch { op, left: tag_of_obj(l), right: tag_of_obj(r) })
        },
        _ => Err(EvalError::InfixTypeMismatch { op, left: tag_of_obj(l), right: tag_of_obj(r) }),
    }
}

/// A numeric base value as a float: integers are widened exactly.
pub open spec fn widen_s(b: BaseValue) -> Result<Fixed, EvalError> {
    match b {
        BaseValue::Integer(i) => int_to_fixed_s(i),
        BaseValue::Float(f) => Ok(f),
        BaseValue::Boolean(_) => Err(EvalError::Overflow),
    }
}

/// What an infix operator other than `&&`/`||` yields on evaluated operands.
pub open spec fn apply_infix_s(op: TokenKind, l: Object, r: Object) -> Result<
    Object,
    EvalError,
> {
    if op == TokenKind::Plus || op == TokenKind::Minus || op == TokenKind::Asterisk || op
        == TokenKind::Slash {
        apply_arith_s(op, l, r)
    } else if op == TokenKind::EqualTo {
        Ok(Object::Base(BaseValue::Boolean(value_eq_s(l, r))))
    } else if op == TokenKind::NotEqualTo {
        Ok(Object::Base(BaseValue::Boolean(!value_eq_s(l, r))))
    } else if op == TokenKind::Less || op == TokenKind::Greater || op == TokenKind::LessEq || op
        == TokenKind::GreaterEq {
        apply_compare_s(op, l, r)
    } else if op == TokenKind::BitAnd {
        match (l, r) {
            (Object::Base(BaseValue::Integer(a)), Object::Base(BaseValue::Integer(b))) => Ok(
                Object::Base(BaseValue::Integer(a & b)),
            ),
            _ => Err(EvalError::InfixTypeMismatch { op, left: tag_of_obj(l), right: tag_of_obj(r) }),
        }
    } else if op == TokenKind::BitOr {
        match (l, r) {
            (Object::Base(BaseValue::Integer(a)), Object::Base(BaseValue::Integer(b))) => Ok(
                Object::Base(BaseValue::Integer(a | b)),
            ),
            _ => Err(EvalError::InfixTypeMismatch { op, left: tag_of_obj(l), right: tag_of_obj(r) }),
        }
    } else {
        Err(EvalError::Unsupported { kind: op })
    }
}

/// What evaluating an expression yields. A return signal produced anywhere
/// in an operand propagates out unchanged; `&&` and `||` short-circuit on
/// the left operand's truthiness.
pub open spec fn eval_expr_s(e: Expression) -> Result<Object, EvalError>
    decreases e, 0int,
{
    match e {
        Expression::Ident { tok } => Err(EvalError::Unsupported { kind: TokenKind::Ident }),
        Expression::IntLit { value, .. } => Ok(Object::Base(BaseValue::Integer(value))),
        Expression::FloatLit { value, .. } => Ok(Object::Base(BaseValue::Float(value))),
        Expression::BoolLit { value, .. } => Ok(Object::Base(BaseValue::Boolean(value))),
        Expression::StrLit { tok } => Err(EvalError::Unsupported { kind: TokenKind::Str }),
        Expression::Prefix { op, right, .. } => match eval_expr_s(*right) {
            Err(e) => Err(e),
            Ok(Object::Return(b)) => Ok(Object::Return(b)),
            Ok(v) => apply_prefix_s(op, v),
        },
        Expression::Infix { op, left, right, .. } => match eval_expr_s(*left) {
            Err(e) => Err(e),
            Ok(Object::Return(b)) => Ok(Object::Return(b)),
            Ok(lv) => if op == TokenKind::And && !truthy_obj(lv) {
                Ok(Object::Base(BaseValue::Boolean(false)))
            } else if op == TokenKind::Or && truthy_obj(lv) {
                Ok(Object::Base(BaseValue::Boolean(true)))
            } else {
                match eval_expr_s(*right) {
                    Err(e) => Err(e),
                    Ok(Object::Return(b)) => Ok(Object::Return(b)),
                    Ok(rv) => if op == TokenKind::And || op == TokenKind::Or {
                        Ok(Object::Base(BaseValue::Boolean(truthy_obj(rv))))
                    } else {
                        apply_infix_s(op, lv, rv)
                    },
                }
            },
        },
        Expression::If { cond, consequence, alternative, .. } => match eval_expr_s(*cond) {
            Err(e) => Err(e),
            Ok(Object::Return(b)) => Ok(Object::Return(b)),
            Ok(cv) => if truthy_obj(cv) {
                eval_stmt_s(*consequence)
            } else {
                match alternative {
                    Some(alt) => eval_stmt_s(*alt),
                    None => Ok(Object::Null),
                }
            },
        },
    }
}

/// What evaluating a statement yields: a `let` evaluates its initializer and
/// yields null, a `return` wraps its value in the return signal, an
/// expression statement yields its expression's value, and a block yields
/// its statements' combined value.
pub open spec fn eval_stmt_s(s: Statement) -> Result<Object, EvalError>
    decreases s, 1int,
{
    match s {
        Statement::Let { value, .. } => match eval_expr_s(value) {
            Err(e) => Err(e),
            Ok(Object::Return(b)) => Ok(Object::Return(b)),
            Ok(_) => Ok(Object::Null),
        },
        Statement::Return { value, .. } => match eval_expr_s(value) {
            Err(e) => Err(e),
            Ok(Object::Base(b)) => Ok(Object::Return(b)),
            Ok(Object::Return(b)) => Ok(Object::Return(b)),
            Ok(Object::Null) => Ok(Object::Null),
        },
        Statement::ExprStmt { expr, .. } => eval_expr_s(expr),
        Statement::Block { stmts, .. } => eval_block_s(stmts),
    }
}

/// What evaluating a block's statements yields: they run in order; a
/// return signal stops the block at once and is its value, unchanged;
/// otherwise the value of the last statement, or null for an empty block.
pub open spec fn eval_block_s(stmts: StmtList) -> Result<Object, EvalError>
    decreases stmts,
{
    match stmts {
        StmtList::Nil => Ok(Object::Null),
        StmtList::Cons { head, tail } => match eval_stmt_s(*head) {
            Err(e) => Err(e),
            Ok(Object::Return(b)) => Ok(Object::Return(b)),
            Ok(v) => if *tail is Nil {
                Ok(v)
            } else {
                eval_block_s(*tail)
            },
        },
    }
}

/// What evaluating a whole program from statement `i` on yields: like a
/// block, except that a return signal is unwrapped into its base value at
/// the top level.
pub open spec fn eval_program_s(stmts: Seq<Statement>, i: int) -> Result<Object, EvalError>
    decreases stmts, stmts.len() - i,
{
    if i < 0 || i >= stmts.len() {
        Ok(Object::Null)
    } else {
        match eval_stmt_s(stmts[i]) {
            Err(e) => Err(e),
            Ok(Object::Return(b)) => Ok(Object::Base(b)),
            Ok(v) => if i == stmts.len() - 1 {
                Ok(v)
            } else {
                eval_program_s(stmts, i + 1)
            },
        }
    }
}

/// Two expressions that are alike — equal everywhere, tokens compared by
/// view — evaluate to the same result: evaluation never reads a token's
/// identity, only its kind and the values parsed from it. This carries the
/// parser's contracts over to evaluation: what a parse returns evaluates
/// exactly as the grammar's node does.
pub proof fn lemma_eval_respects_expr_like(a: Expression, b: Expression)
    requires
        expr_like(a, b),
    ensures
        eval_expr_s(a) == eval_expr_s(b),
    decreases a,
{
    match (a, b) {
        (Expression::Prefix { right: r1, .. }, Expression::Prefix { right: r2, .. }) => {
            lemma_eval_respects_expr_like(*r1, *r2);
        },
        (
            Expression::Infix { left: l1, right: r1, .. },
            Expression::Infix { left: l2, right: r2, .. },
        ) => {
            lemma_eval_respects_expr_like(*l1, *l2);
            lemma_eval_respects_expr_like(*r1, *r2);
        },
        (
            Expression::If { cond: c1, consequence: q1, alternative: a1, .. },
            Expression::If { cond: c2, consequence: q2, alternative: a2, .. },
        ) => {
            lemma_eval_respects_expr_like(*c1, *c2);
            lemma_eval_respects_stmt_like(*q1, *q2);
            match (a1, a2) {
                (Some(x), Some(y)) => {
                    lemma_eval_respects_stmt_like(*x, *y);
                },
                _ => {},
            }
        },
        _ => {},
    }
}

/// Two statements that are alike evaluate to the same result.
pub proof fn lemma_eval_respects_stmt_like(a: Statement, b: Statement)
    requires
        stmt_like(a, b),
    ensures
        eval_stmt_s(a) == eval_stmt_s(b),
    decreases a,
{
    match (a, b) {
        (Statement::Let { value: v1, .. }, Statement::Let { value: v2, .. }) => {
            lemma_eval_respects_expr_like(v1, v2);
        },
        (Statement::Return { value: v1, .. }, Statement::Return { value: v2, .. }) => {
            lemma_eval_respects_expr_like(v1, v2);
        },
        (Statement::ExprStmt { expr: e1, .. }, Statement::ExprStmt { expr: e2, .. }) => {
            lemma_eval_respects_expr_like(e1, e2);
        },
        (Statement::Block { stmts: s1, .. }, Statement::Block { stmts: s2, .. }) => {
            lemma_eval_respects_list_like(s1, s2);
        },
        _ => {},
    }
}

/// Two statement lists that are alike evaluate to the same block result.
pub proof fn lemma_eval_respects_list_like(a: StmtList, b: StmtList)
    requires
        list_like(a, b),
    ensures
        eval_block_s(a) == eval_block_s(b),
    decreases a,
{
    match (a, b) {
        (
            StmtList::Cons { head: h1, tail: t1 },
            StmtList::Cons { head: h2, tail: t2 },
        ) => {
            lemma_eval_respects_stmt_like(*h1, *h2);
            lemma_eval_respects_list_like(*t1, *t2);
        },
        _ => {},
    }
}

/// An `if`/`else` chain takes the value of exactly one branch, chosen by
/// the first true condition: when the condition holds, the value is the
/// consequence block's; otherwise it is the alternative's — a block or a
/// nested `if`, where this law applies again — and `Null` when no
/// alternative exists. A return signal in the condition propagates instead.
pub proof fn lemma_if_first_true_condition(e: Expression)
    requires
        e matches Expression::If { .. },
    ensures
        e matches Expression::If { cond, consequence, alternative, .. } ==> (eval_expr_s(*cond)
            matches Ok(cv) ==> !(cv is Return) ==> eval_expr_s(e) == (if truthy_obj(cv) {
            eval_stmt_s(*consequence)
        } else {
            match alternative {
                Some(alt) => eval_stmt_s(*alt),
                None => Ok(Object::Null),
            }
        })),
{
}

/// A return signal produced by any statement of a block is the block's
/// value, unchanged: the statements after it, at every nesting level, do
/// not contribute.
pub proof fn lemma_return_short_circuits(l: StmtList, k: int, b: BaseValue)
    requires
        0 <= k < sl_seq(l).len(),
        eval_stmt_s(sl_seq(l)[k]) == Result::<Object, EvalError>::Ok(Object::Return(b)),
        forall|j: int|
            0 <= j < k ==> ((#[trigger] eval_stmt_s(sl_seq(l)[j])) matches Ok(v) && !(v
                is Return)),
    ensures
        eval_block_s(l) == Result::<Object, EvalError>::Ok(Object::Return(b)),
    decreases l,
{
    match l {
        StmtList::Nil => {},
        StmtList::Cons { head, tail } => {
            assert(sl_seq(l) == seq![*head] + sl_seq(*tail));
            assert(sl_seq(l)[0] == *head);
            if k == 0 {
            } else {
                assert(eval_stmt_s(*head) matches Ok(v) && !(v is Return));
                assert(sl_seq(*tail).len() == sl_seq(l).len() - 1);
                assert(!(*tail is Nil));
                assert(sl_seq(*tail)[k - 1] == sl_seq(l)[k]);
                assert forall|j: int| 0 <= j < k - 1 implies ((#[trigger] eval_stmt_s(
                    sl_seq(*tail)[j],
                )) matches Ok(v) && !(v is Return)) by {
                    assert(sl_seq(*tail)[j] == sl_seq(l)[j + 1]);
                    assert(eval_stmt_s(sl_seq(l)[j + 1]) matches Ok(v) && !(v is Return));
                }
                lemma_return_short_circuits(*tail, k - 1, b);
            }
        },
    }
}

/// At the top of a program the same signal is unwrapped: a return signal
/// produced by any top-level statement becomes the program's result, and
/// the statements after it do not run.
pub proof fn lemma_return_stops_program(stmts: Seq<Statement>, i: int, k: int, b: BaseValue)
    requires
        0 <= i <= k < stmts.len(),
        eval_stmt_s(stmts[k]) == Result::<Object, EvalError>::Ok(Object::Return(b)),
        forall|j: int|
            i <= j < k ==> ((#[trigger] eval_stmt_s(stmts[j])) matches Ok(v) && !(v is Return)),
    ensures
        eval_program_s(stmts, i) == Result::<Object, EvalError>::Ok(Object::Base(b)),
    decreases k - i,
{
    if i < k {
        assert(eval_stmt_s(stmts[i]) matches Ok(v) && !(v is Return));
        lemma_return_stops_program(stmts, i + 1, k, b);
    }
}

/// The statements standing after a return signal do not matter: two blocks
/// that agree up to and including the returning statement evaluate to the
/// same value, whatever follows in either.
pub proof fn lemma_return_ignores_suffix(l1: StmtList, l2: StmtList, k: int, b: BaseValue)
    requires
        0 <= k < sl_seq(l1).len(),
        k < sl_seq(l2).len(),
        forall|j: int| 0 <= j <= k ==> sl_seq(l2)[j] == sl_seq(l1)[j],
        eval_stmt_s(sl_seq(l1)[k]) == Result::<Object, EvalError>::Ok(Object::Return(b)),
        forall|j: int|
            0 <= j < k ==> ((#[trigger] eval_stmt_s(sl_seq(l1)[j])) matches Ok(v) && !(v
                is Return)),
    ensures
        eval_block_s(l1) == eval_block_s(l2),
        eval_block_s(l1) == Result::<Object, EvalError>::Ok(Object::Return(b)),
{
    lemma_return_short_circuits(l1, k, b);
    assert forall|j: int| 0 <= j < k implies ((#[trigger] eval_stmt_s(sl_seq(l2)[j])) matches Ok(
        v,
    ) && !(v is Return)) by {
        assert(sl_seq(l2)[j] == sl_seq(l1)[j]);
        assert(eval_stmt_s(sl_seq(l1)[j]) matches Ok(v) && !(v is Return));
    }
    assert(sl_seq(l2)[k] == sl_seq(l1)[k]);
    lemma_return_short_circuits(l2, k, b);
}

/// Arithmetic promotion: when either operand of `+ - * /` is a float, a
/// successful result is a float. (The float model is the exact decimal
/// `Fixed`; results that exact decimals cannot represent are errors, so no
/// rounding rule applies.)
pub proof fn lemma_arithmetic_promotes(op: TokenKind, l: Object, r: Object)
    requires
        op == TokenKind::Plus || op == TokenKind::Minus || op == TokenKind::Asterisk || op
            == TokenKind::Slash,
        l matches Object::Base(lb) && is_numeric(lb),
        r matches Object::Base(rb) && is_numeric(rb),
        (l matches Object::Base(lb) && lb is Float) || (r matches Object::Base(rb)
            && rb is Float),
    ensures
        apply_arith_s(op, l, r) matches Ok(v) ==> v matches Object::Base(b) && b is Float,
{
}

/// Truthiness coercion is idempotent under double negation: for every
/// value, `!!v` evaluates to `Boolean(true)` exactly when `v` is truthy.
pub proof fn lemma_double_negation(e: Expression, inner: Expression, outer: Expression)
    requires
        inner matches Expression::Prefix { op, right, .. } && op == TokenKind::Not && *right == e,
        outer matches Expression::Prefix { op, right, .. } && op == TokenKind::Not && *right
            == inner,
    ensures
        eval_expr_s(e) matches Ok(v) ==> !(v is Return) ==> eval_expr_s(outer) == Result::<
            Object,
            EvalError,
        >::Ok(Object::Base(BaseValue::Boolean(truthy_obj(v)))),
{
    reveal_with_fuel(eval_expr_s, 3);
}

fn apply_prefix(op: TokenKind, v: Object) -> (r: Result<Object, EvalError>)
    ensures
        r == apply_prefix_s(op, v),
{
    if matches!(op, TokenKind::Not) {
        let t = is_truthy(&v);
        Ok(Object::Base(BaseValue::Boolean(!t)))
    } else if matches!(op, TokenKind::Minus) {
        match v {
            Object::Base(BaseValue::Integer(i)) => if i == i64::MIN {
                Err(EvalError::Overflow)
            } else {
                Ok(Object::Base(BaseValue::Integer(-i)))
            },
            Object::Base(BaseValue::Float(f)) => match fixed_neg(f) {
                Ok(g) => Ok(Object::Base(BaseValue::Float(g))),
                Err(e) => Err(e),
            },
            _ => Err(EvalError::PrefixTypeMismatch { op, operand: tag_of_obj_x(&v) }),
        }
    } else {
        Err(EvalError::Unsupported { kind: op })
    }
}

fn tag_of_obj_x(o: &Object) -> (t: crate::object::ValueTag)
    ensures
        t == tag_of_obj(*o),
{
    match o {
        Object::Base(BaseValue::Integer(_)) => crate::object::ValueTag::Integer,
        Object::Base(BaseValue::Float(_)) => crate::object::ValueTag::Float,
        Object::Base(BaseValue::Boolean(_)) => crate::object::ValueTag::Boolean,
        Object::Return(BaseValue::Integer(_)) => crate::object::ValueTag::Integer,
        Object::Return(BaseValue::Float(_)) => crate::object::ValueTag::Float,
        Object::Return(BaseValue::Boolean(_)) => crate::object::ValueTag::Boolean,
        Object::Null => crate::object::ValueTag::Null,
    }
}

/// Decides value equality as the `==` operator sees it.
pub fn value_eq(l: &Object, r: &Object) -> (res: bool)
    ensures
        res == value_eq_s(*l, *r),
{
    match (l, r) {
        (Object::Base(a), Object::Base(b)) => match (a, b) {
            (BaseValue::Integer(x), BaseValue::Integer(y)) => *x == *y,
            (BaseValue::Float(x), BaseValue::Float(y)) => x.n == y.n,
            (BaseValue::Integer(x), BaseValue::Float(y)) => int_scaled_x(*x) == (y.n as i128),
            (BaseValue::Float(x), BaseValue::Integer(y)) => (x.n as i128) == int_scaled_x(*y),
            (BaseValue::Boolean(x), BaseValue::Boolean(y)) => *x == *y,
            _ => false,
        },
        (Object::Null, Object::Null) => true,
        _ => false,
    }
}

fn apply_compare(op: TokenKind, l: Object, r: Object) -> (res: Result<Object, EvalError>)
    requires
        op == TokenKind::Less || op == TokenKind::Greater || op == TokenKind::LessEq || op
            == TokenKind::GreaterEq,
    ensures
        res == apply_compare_s(op, l, r),
{
    match (l, r) {
        (Object::Base(a), Object::Base(b)) => {
            let numeric = matches!(a, BaseValue::Integer(_) | BaseValue::Float(_)) && matches!(
                b,
                BaseValue::Integer(_) | BaseValue::Float(_),
            );
            if numeric {
                let x = scaled_of_x(&a);
                let y = scaled_of_x(&b);
                let c = if matches!(op, TokenKind::Less) {
                    x < y
                } else if matches!(op, TokenKind::Greater) {
                    x > y
                } else if matches!(op, TokenKind::LessEq) {
                    x <= y
                } else {
                    x >= y
                };
                Ok(Object::Base(BaseValue::Boolean(c)))
            } else {
                Err(
                    EvalError::InfixTypeMismatch {
                        op,
                        left: tag_of_obj_x(&l),
                        right: tag_of_obj_x(&r),
                    },
                )
            }
        },
        _ => Err(
            EvalError::InfixTypeMismatch { op, left: tag_of_obj_x(&l), right: tag_of_obj_x(&r) },
        ),
    }
}

fn scaled_of_x(b: &BaseValue) -> (r: i128)
    requires
        *b is Integer || *b is Float,
    ensures
        r == scaled_of(*b),
{
    match b {
        BaseValue::Integer(i) => int_scaled_x(*i),
        BaseValue::Float(f) => f.n as i128,
        BaseValue::Boolean(_) => 0,
    }
}

fn widen(b: BaseValue) -> (r: Result<Fixed, EvalError>)
    ensures
        r == widen_s(b),
{
    match b {
        BaseValue::Integer(i) => int_to_fixed(i),
        BaseValue::Float(f) => Ok(f),
        BaseValue::Boolean(_) => Err(EvalError::Overflow),
    }
}

fn apply_arith(op: TokenKind, l: Object, r: Object) -> (res: Result<Object, EvalError>)
    requires
        op == TokenKind::Plus || op == TokenKind::Minus || op == TokenKind::Asterisk || op
            == TokenKind::Slash,
    ensures
        res == apply_arith_s(op, l, r),
{
    match (l, r) {
        (Object::Base(BaseValue::Integer(a)), Object::Base(BaseValue::Integer(b))) => {
            let res = if matches!(op, TokenKind::Plus) {
                int_add(a, b)
            } else if matches!(op, TokenKind::Minus) {
                int_sub(a, b)
            } else if matches!(op, TokenKind::Asterisk) {
                int_mul(a, b)
            } else {
                int_div(a, b)
            };
            match res {
                Ok(v) => Ok(Object::Base(BaseValue::Integer(v))),
                Err(e) => Err(e),
            }
        },
        (Object::Base(a), Object::Base(b)) => {
            let numeric = matches!(a, BaseValue::Integer(_) | BaseValue::Float(_)) && matches!(
                b,
                BaseValue::Integer(_) | BaseValue::Float(_),
            );
            if numeric {
                let wx = widen(a);
                let wy = widen(b);
                match (wx, wy) {
                    (Ok(x), Ok(y)) => {
                        let res = if matches!(op, TokenKind::Plus) {
                            fixed_add(x, y)
                        } else if matches!(op, TokenKind::Minus) {
                            fixed_sub(x, y)
                        } else if matches!(op, TokenKind::Asterisk) {
                            fixed_mul(x, y)
                        } else {
                            fixed_div(x, y)
                        };
                        match res {
                            Ok(v) => Ok(Object::Base(BaseValue::Float(v))),
                            Err(e) => Err(e),
                        }
                    },
                    (Err(e), _) => Err(e),
                    (_, Err(e)) => Err(e),
                }
            } else {
                Err(
                    EvalError::InfixTypeMismatch {
                        op,
                        left: tag_of_obj_x(&l),
                        right: tag_of_obj_x(&r),
                    },
                )
            }
        },
        _ => Err(
            EvalError::InfixTypeMismatch { op, left: tag_of_obj_x(&l), right: tag_of_obj_x(&r) },
        ),
    }
}

fn apply_infix(op: TokenKind, l: Object, r: Object) -> (res: Result<Object, EvalError>)
    ensures
        res == apply_infix_s(op, l, r),
{
    if matches!(op, TokenKind::Plus | TokenKind::Minus | TokenKind::Asterisk | TokenKind::Slash) {
        apply_arith(op, l, r)
    } else if matches!(op, TokenKind::EqualTo) {
        let e = value_eq(&l, &r);
        Ok(Object::Base(BaseValue::Boolean(e)))
    } else if matches!(op, TokenKind::NotEqualTo) {
        let e = value_eq(&l, &r);
        Ok(Object::Base(BaseValue::Boolean(!e)))
    } else if matches!(
        op,
        TokenKind::Less | TokenKind::Greater | TokenKind::LessEq | TokenKind::GreaterEq,
    ) {
        apply_compare(op, l, r)
    } else if matches!(op, TokenKind::BitAnd) {
        match (l, r) {
            (Object::Base(BaseValue::Integer(a)), Object::Base(BaseValue::Integer(b))) => Ok(
                Object::Base(BaseValue::Integer(a & b)),
            ),
            _ => Err(
                EvalError::InfixTypeMismatch {
                    op,
                    left: tag_of_obj_x(&l),
                    right: tag_of_obj_x(&r),
                },
            ),
        }
    } else if matches!(op, TokenKind::BitOr) {
        match (l, r) {
            (Object::Base(BaseValue::Integer(a)), Object::Base(BaseValue::Integer(b))) => Ok(
                Object::Base(BaseValue::Integer(a | b)),
            ),
            _ => Err(
                EvalError::InfixTypeMismatch {
                    op,
                    left: tag_of_obj_x(&l),
                    right: tag_of_obj_x(&r),
                },
            ),
        }
    } else {
        Err(EvalError::Unsupported { kind: op })
    }
}

/// Evaluates an expression; the result is exactly what the semantics state.
pub fn eval_expr(e: &Expression) -> (r: Result<Object, EvalError>)
    ensures
        r == eval_expr_s(*e),
    decreases *e, 0int,
{
    match e {
        Expression::Ident { .. } => Err(EvalError::Unsupported { kind: TokenKind::Ident }),
        Expression::IntLit { value, .. } => Ok(Object::Base(BaseValue::Integer(*value))),
        Expression::FloatLit { value, .. } => Ok(Object::Base(BaseValue::Float(*value))),
        Expression::BoolLit { value, .. } => Ok(Object::Base(BaseValue::Boolean(*value))),
        Expression::StrLit { .. } => Err(EvalError::Unsupported { kind: TokenKind::Str }),
        Expression::Prefix { op, right, .. } => match eval_expr(&**right) {
            Err(e) => Err(e),
            Ok(Object::Return(b)) => Ok(Object::Return(b)),
            Ok(v) => apply_prefix(*op, v),
        },
        Expression::Infix { op, left, right, .. } => match eval_expr(&**left) {
            Err(e) => Err(e),
            Ok(Object::Return(b)) => Ok(Object::Return(b)),
            Ok(lv) => {
                let lt = is_truthy(&lv);
                if matches!(op, TokenKind::And) && !lt {
                    Ok(Object::Base(BaseValue::Boolean(false)))
                } else if matches!(op, TokenKind::Or) && lt {
                    Ok(Object::Base(BaseValue::Boolean(true)))
                } else {
                    match eval_expr(&**right) {
                        Err(e) => Err(e),
                        Ok(Object::Return(b)) => Ok(Object::Return(b)),
                        Ok(rv) => if matches!(op, TokenKind::And | TokenKind::Or) {
                            let rt = is_truthy(&rv);
                            Ok(Object::Base(BaseValue::Boolean(rt)))
                        } else {
                            apply_infix(*op, lv, rv)
                        },
                    }
                }
            },
        },
        Expression::If { cond, consequence, alternative, .. } => match eval_expr(&**cond) {
            Err(e) => Err(e),
            Ok(Object::Return(b)) => Ok(Object::Return(b)),
            Ok(cv) => if is_truthy(&cv) {
                eval(&**consequence)
            } else {
                match alternative {
                    Some(alt) => eval(&**alt),
                    None => Ok(Object::Null),
                }
            },
        },
    }
}

/// Evaluates one statement; the result is exactly what the semantics state.
pub fn eval(stmt: &Statement) -> (r: Result<Object, EvalError>)
    ensures
        r == eval_stmt_s(*stmt),
    decreases *stmt, 1int,
{
    match stmt {
        Statement::Let { value, .. } => match eval_expr(value) {
            Err(e) => Err(e),
            Ok(Object::Return(b)) => Ok(Object::Return(b)),
            Ok(_) => Ok(Object::Null),
        },
        Statement::Return { value, .. } => match eval_expr(value) {
            Err(e) => Err(e),
            Ok(Object::Base(b)) => Ok(Object::Return(b)),
            Ok(Object::Return(b)) => Ok(Object::Return(b)),
            Ok(Object::Null) => Ok(Object::Null),
        },
        Statement::ExprStmt { expr, .. } => eval_expr(expr),
        Statement::Block { stmts, .. } => eval_block(stmts),
    }
}

fn eval_block(stmts: &StmtList) -> (r: Result<Object, EvalError>)
    ensures
        r == eval_block_s(*stmts),
    decreases *stmts, 0int,
{
    match stmts {
        StmtList::Nil => Ok(Object::Null),
        StmtList::Cons { head, tail } => match eval(&**head) {
            Err(e) => Err(e),
            Ok(Object::Return(b)) => Ok(Object::Return(b)),
            Ok(v) => if matches!(&**tail, StmtList::Nil) {
                Ok(v)
            } else {
                eval_block(&**tail)
            },
        },
    }
}

/// Evaluates a whole program: every statement in order, a return signal
/// unwrapped into the program's result.
pub fn eval_program(stmts: &Vec<Statement>) -> (r: Result<Object, EvalError>)
    ensures
        r == eval_program_s(stmts@, 0),
{
    eval_program_from(stmts, 0)
}

fn eval_program_from(stmts: &Vec<Statement>, i: usize) -> (r: Result<Object, EvalError>)
    requires
        i <= stmts.len(),
    ensures
        r == eval_program_s(stmts@, i as int),
    decreases stmts.len() - i,
{
    if i >= stmts.len() {
        Ok(Object::Null)
    } else {
        match eval(&stmts[i]) {
            Err(e) => Err(e),
            Ok(Object::Return(b)) => Ok(Object::Base(b)),
            Ok(v) => if i == stmts.len() - 1 {
                Ok(v)
            } else {
                eval_program_from(stmts, i + 1)
            },
        }
    }
}

} // verus!
