//! Runtime values and the verified numeric kernel of the evaluator.
//!
//! The language's fractional numbers are modelled exactly: a `Fixed` value is
//! an integer count of billionths, so every decimal literal with at most nine
//! fractional digits is represented precisely and arithmetic is exact. An
//! operation whose exact result cannot be represented reports an error
//! instead of rounding silently.

use vstd::prelude::*;
use crate::token::TokenKind;

verus! {

/// How many counts make one whole unit: a `Fixed` holds billionths.
pub const FIXED_ONE: i64 = 1_000_000_000;

/// An exact decimal number: the value is `n / 1_000_000_000`.
#[derive(Clone, Copy, PartialEq, Eq, Structural, Debug)]
pub struct Fixed {
    /// The count of billionths.
    pub n: i64,
}

impl Fixed {
    /// The number `n / 1_000_000_000`.
    pub fn from_scaled(n: i64) -> (r: Fixed)
        ensures
            r.n == n,
    {
        Fixed { n }
    }

    /// The whole number `i`, when it is small enough to represent.
    pub fn from_int(i: i64) -> (r: Result<Fixed, EvalError>)
        ensures
            r == int_to_fixed_s(i),
    {
        int_to_fixed(i)
    }
}

/// The tag of a runtime value, used in error reports.
#[derive(Clone, Copy, PartialEq, Eq, Structural, Debug)]
pub enum ValueTag {
    Integer,
    Float,
    Boolean,
    Null,
}

/// A base runtime value: what an expression reduces to.
#[derive(Clone, Copy, PartialEq, Eq, Structural, Debug)]
pub enum BaseValue {
    Integer(i64),
    Float(Fixed),
    Boolean(bool),
}

/// A runtime value: a base value, a base value wrapped in the return signal
/// that unwinds out of nested blocks, or null.
#[derive(Clone, Copy, PartialEq, Eq, Structural, Debug)]
pub enum Object {
    Base(BaseValue),
    Return(BaseValue),
    Null,
}

/// A typed evaluation failure; evaluation never panics.
#[derive(Clone, Copy, PartialEq, Eq, Structural, Debug)]
pub enum EvalError {
    /// A prefix operator was applied to an operand it does not accept.
    PrefixTypeMismatch { op: TokenKind, operand: ValueTag },
    /// An infix operator was applied to operands it does not accept.
    InfixTypeMismatch { op: TokenKind, left: ValueTag, right: ValueTag },
    DivisionByZero,
    /// The exact result lies outside the representable numeric range.
    Overflow,
    /// The exact result is not representable as a whole count of billionths.
    Inexact,
    /// A construct the evaluator does not implement, named by its token kind.
    Unsupported { kind: TokenKind },
}

/// The tag of a base value.
pub open spec fn tag_of(b: BaseValue) -> ValueTag {
    match b {
        BaseValue::Integer(_) => ValueTag::Integer,
        BaseValue::Float(_) => ValueTag::Float,
        BaseValue::Boolean(_) => ValueTag::Boolean,
    }
}

/// The tag of an object; a return signal carries its base value's tag.
pub open spec fn tag_of_obj(o: Object) -> ValueTag {
    match o {
        Object::Base(b) => tag_of(b),
        Object::Return(b) => tag_of(b),
        Object::Null => ValueTag::Null,
    }
}

/// Truthiness of a base value: everything is truthy except `false` and
/// numeric zero.
pub open spec fn truthy_base(b: BaseValue) -> bool {
    match b {
        BaseValue::Integer(i) => i != 0,
        BaseValue::Float(f) => f.n != 0,
        BaseValue::Boolean(v) => v,
    }
}

/// Truthiness of an object: null is falsy, base values follow `truthy_base`.
pub open spec fn truthy_obj(o: Object) -> bool {
    match o {
        Object::Base(b) => truthy_base(b),
        Object::Return(b) => truthy_base(b),
        Object::Null => false,
    }
}

/// Decides truthiness of an object.
pub fn is_truthy(o: &Object) -> (r: bool)
    ensures
        r == truthy_obj(*o),
{
    match o {
        Object::Base(b) => is_truthy_base(b),
        Object::Return(b) => is_truthy_base(b),
        Object::Null => false,
    }
}

fn is_truthy_base(b: &BaseValue) -> (r: bool)
    ensures
        r == truthy_base(*b),
{
    match b {
        BaseValue::Integer(i) => *i != 0,
        BaseValue::Float(f) => f.n != 0,
        BaseValue::Boolean(v) => *v,
    }
}

/// Absolute value.
pub open spec fn abs_i(x: int) -> int {
    if x < 0 {
        -x
    } else {
        x
    }
}

/// Whether `x` fits the 64-bit signed range.
pub open spec fn in_i64(x: int) -> bool {
    i64::MIN <= x <= i64::MAX
}

/// Whether `d` divides `x` evenly (`d != 0`).
pub open spec fn divisible(x: int, d: int) -> bool {
    abs_i(x) % abs_i(d) == 0
}

/// The quotient of `x` by `d`, rounded toward zero; when `d` divides `x`
/// this is the exact quotient.
pub open spec fn quot_toward_zero(x: int, d: int) -> int {
    if (x < 0) == (d < 0) {
        abs_i(x) / abs_i(d)
    } else {
        -(abs_i(x) / abs_i(d))
    }
}

/// Splits an i128 into sign and magnitude.
fn mag_u128(p: i128) -> (r: (bool, u128))
    requires
        p != i128::MIN,
    ensures
        r.1 == abs_i(p as int),
        r.0 == (p < 0),
{
    if p < 0 {
        (true, (-p) as u128)
    } else {
        (false, p as u128)
    }
}

/// Divides `x` by `d` (`d != 0`), rounding toward zero; reports whether the
/// division was exact and whether the quotient fits an `i64`.
fn div_toward_zero(x: i128, d: i128) -> (r: Result<(i64, bool), EvalError>)
    requires
        d != 0,
        x != i128::MIN,
        d != i128::MIN,
    ensures
        in_i64(quot_toward_zero(x as int, d as int)) ==> r is Ok
            && r->Ok_0.0 == quot_toward_zero(x as int, d as int) && r->Ok_0.1 == divisible(
            x as int,
            d as int,
        ),
        !in_i64(quot_toward_zero(x as int, d as int)) ==> r == Result::<
            (i64, bool),
            EvalError,
        >::Err(EvalError::Overflow),
{
    let (nx, mx) = mag_u128(x);
    let (nd, md) = mag_u128(d);
    let q = mx / md;
    let rem = mx % md;
    let exact = rem == 0;
    if nx == nd {
        if q > (i64::MAX as u128) {
            Err(EvalError::Overflow)
        } else {
            Ok((q as i64, exact))
        }
    } else {
        if q > (i64::MAX as u128) + 1 {
            Err(EvalError::Overflow)
        } else if q == (i64::MAX as u128) + 1 {
            Ok((i64::MIN, exact))
        } else {
            Ok((-(q as i64), exact))
        }
    }
}

/// What adding two fixed numbers yields: the exact sum, or overflow.
pub open spec fn fixed_add_s(a: Fixed, b: Fixed) -> Result<Fixed, EvalError> {
    if in_i64(a.n + b.n) {
        Ok(Fixed { n: (a.n + b.n) as i64 })
    } else {
        Err(EvalError::Overflow)
    }
}

/// Adds two fixed numbers exactly.
pub fn fixed_add(a: Fixed, b: Fixed) -> (r: Result<Fixed, EvalError>)
    ensures
        r == fixed_add_s(a, b),
{
    let s = (a.n as i128) + (b.n as i128);
    if s < (i64::MIN as i128) || s > (i64::MAX as i128) {
        Err(EvalError::Overflow)
    } else {
        Ok(Fixed { n: s as i64 })
    }
}

/// What subtracting fixed numbers yields: the exact difference, or overflow.
pub open spec fn fixed_sub_s(a: Fixed, b: Fixed) -> Result<Fixed, EvalError> {
    if in_i64(a.n - b.n) {
        Ok(Fixed { n: (a.n - b.n) as i64 })
    } else {
        Err(EvalError::Overflow)
    }
}

/// Subtracts two fixed numbers exactly.
pub fn fixed_sub(a: Fixed, b: Fixed) -> (r: Result<Fixed, EvalError>)
    ensures
        r == fixed_sub_s(a, b),
{
    let s = (a.n as i128) - (b.n as i128);
    if s < (i64::MIN as i128) || s > (i64::MAX as i128) {
        Err(EvalError::Overflow)
    } else {
        Ok(Fixed { n: s as i64 })
    }
}

/// What negating a fixed number yields.
pub open spec fn fixed_neg_s(a: Fixed) -> Result<Fixed, EvalError> {
    if in_i64(-a.n) {
        Ok(Fixed { n: (-a.n) as i64 })
    } else {
        Err(EvalError::Overflow)
    }
}

/// Negates a fixed number.
pub fn fixed_neg(a: Fixed) -> (r: Result<Fixed, EvalError>)
    ensures
        r == fixed_neg_s(a),
{
    if a.n == i64::MIN {
        Err(EvalError::Overflow)
    } else {
        Ok(Fixed { n: -a.n })
    }
}

/// What multiplying fixed numbers yields: the product of the counts scaled
/// back down, exactly representable or not.
pub open spec fn fixed_mul_s(a: Fixed, b: Fixed) -> Result<Fixed, EvalError> {
    let p = a.n * b.n;
    if !divisible(p, FIXED_ONE as int) {
        Err(EvalError::Inexact)
    } else if !in_i64(quot_toward_zero(p, FIXED_ONE as int)) {
        Err(EvalError::Overflow)
    } else {
        Ok(Fixed { n: quot_toward_zero(p, FIXED_ONE as int) as i64 })
    }
}

/// Multiplies two fixed numbers exactly.
pub fn fixed_mul(a: Fixed, b: Fixed) -> (r: Result<Fixed, EvalError>)
    ensures
        r == fixed_mul_s(a, b),
{
    proof {
        assert((a.n as int) * (b.n as int) < i128::MAX && (a.n as int) * (b.n as int)
            > i128::MIN) by (nonlinear_arith)
            requires
                i64::MIN <= a.n <= i64::MAX,
                i64::MIN <= b.n <= i64::MAX,
        ;
    }
    let p = (a.n as i128) * (b.n as i128);
    match div_toward_zero(p, FIXED_ONE as i128) {
        Ok((q, exact)) => {
            if exact {
                Ok(Fixed { n: q })
            } else {
                Err(EvalError::Inexact)
            }
        },
        Err(e) => {
            if is_divisible_err_inexact(p) {
                Err(EvalError::Inexact)
            } else {
                Err(e)
            }
        },
    }
}

/// Decides divisibility by the scale for the overflow path of `fixed_mul`.
fn is_divisible_err_inexact(p: i128) -> (r: bool)
    requires
        p != i128::MIN,
    ensures
        r == !divisible(p as int, FIXED_ONE as int),
{
    let (_, mp) = mag_u128(p);
    mp % (FIXED_ONE as u128) != 0
}

/// What dividing fixed numbers yields: division by zero is an error, an
/// inexact quotient is an error, and otherwise the exact quotient of the
/// two numbers.
pub open spec fn fixed_div_s(a: Fixed, b: Fixed) -> Result<Fixed, EvalError> {
    if b.n == 0 {
        Err(EvalError::DivisionByZero)
    } else {
        let x = a.n * (FIXED_ONE as int);
        if !divisible(x, b.n as int) {
            Err(EvalError::Inexact)
        } else if !in_i64(quot_toward_zero(x, b.n as int)) {
            Err(EvalError::Overflow)
        } else {
            Ok(Fixed { n: quot_toward_zero(x, b.n as int) as i64 })
        }
    }
}

/// Divides two fixed numbers exactly.
pub fn fixed_div(a: Fixed, b: Fixed) -> (r: Result<Fixed, EvalError>)
    ensures
        r == fixed_div_s(a, b),
{
    if b.n == 0 {
        return Err(EvalError::DivisionByZero);
    }
    proof {
        assert((a.n as int) * (FIXED_ONE as int) < i128::MAX && (a.n as int) * (FIXED_ONE as int)
            > i128::MIN) by (nonlinear_arith)
            requires
                i64::MIN <= a.n <= i64::MAX,
        ;
    }
    let x = (a.n as i128) * (FIXED_ONE as i128);
    match div_toward_zero(x, b.n as i128) {
        Ok((q, exact)) => {
            if exact {
                Ok(Fixed { n: q })
            } else {
                Err(EvalError::Inexact)
            }
        },
        Err(e) => {
            let (_, mx) = mag_u128(x);
            let (_, md) = mag_u128(b.n as i128);
            if mx % md != 0 {
                Err(EvalError::Inexact)
            } else {
                Err(e)
            }
        },
    }
}

/// What a whole number is as a fixed number, when it is small enough.
pub open spec fn int_to_fixed_s(i: i64) -> Result<Fixed, EvalError> {
    if in_i64(i * (FIXED_ONE as int)) {
        Ok(Fixed { n: (i * (FIXED_ONE as int)) as i64 })
    } else {
        Err(EvalError::Overflow)
    }
}

/// Widens a whole number to a fixed number.
pub fn int_to_fixed(i: i64) -> (r: Result<Fixed, EvalError>)
    ensures
        r == int_to_fixed_s(i),
{
    proof {
        assert((i as int) * (FIXED_ONE as int) < i128::MAX && (i as int) * (FIXED_ONE as int)
            > i128::MIN) by (nonlinear_arith)
            requires
                i64::MIN <= i <= i64::MAX,
        ;
    }
    let p = (i as i128) * (FIXED_ONE as i128);
    if p < (i64::MIN as i128) || p > (i64::MAX as i128) {
        Err(EvalError::Overflow)
    } else {
        Ok(Fixed { n: p as i64 })
    }
}

/// A whole number on the fixed scale, exactly, with no range limit.
pub open spec fn int_scaled(i: int) -> int {
    i * (FIXED_ONE as int)
}

/// Computes `i` on the fixed scale in 128 bits, exactly.
pub fn int_scaled_x(i: i64) -> (r: i128)
    ensures
        r == int_scaled(i as int),
{
    proof {
        assert((i as int) * (FIXED_ONE as int) < i128::MAX && (i as int) * (FIXED_ONE as int)
            > i128::MIN) by (nonlinear_arith)
            requires
                i64::MIN <= i <= i64::MAX,
        ;
    }
    (i as i128) * (FIXED_ONE as i128)
}

/// What adding two whole numbers yields: the exact sum, or overflow.
pub open spec fn int_add_s(a: i64, b: i64) -> Result<i64, EvalError> {
    if in_i64(a + b) {
        Ok((a + b) as i64)
    } else {
        Err(EvalError::Overflow)
    }
}

/// Adds two whole numbers exactly.
pub fn int_add(a: i64, b: i64) -> (r: Result<i64, EvalError>)
    ensures
        r == int_add_s(a, b),
{
    let s = (a as i128) + (b as i128);
    if s < (i64::MIN as i128) || s > (i64::MAX as i128) {
        Err(EvalError::Overflow)
    } else {
        Ok(s as i64)
    }
}

/// What subtracting two whole numbers yields.
pub open spec fn int_sub_s(a: i64, b: i64) -> Result<i64, EvalError> {
    if in_i64(a - b) {
        Ok((a - b) as i64)
    } else {
        Err(EvalError::Overflow)
    }
}

/// Subtracts two whole numbers exactly.
pub fn int_sub(a: i64, b: i64) -> (r: Result<i64, EvalError>)
    ensures
        r == int_sub_s(a, b),
{
    let s = (a as i128) - (b as i128);
    if s < (i64::MIN as i128) || s > (i64::MAX as i128) {
        Err(EvalError::Overflow)
    } else {
        Ok(s as i64)
    }
}

/// What multiplying two whole numbers yields.
pub open spec fn int_mul_s(a: i64, b: i64) -> Result<i64, EvalError> {
    if in_i64(a * b) {
        Ok((a * b) as i64)
    } else {
        Err(EvalError::Overflow)
    }
}

/// Multiplies two whole numbers exactly.
pub fn int_mul(a: i64, b: i64) -> (r: Result<i64, EvalError>)
    ensures
        r == int_mul_s(a, b),
{
    proof {
        assert((a as int) * (b as int) < i128::MAX && (a as int) * (b as int) > i128::MIN)
            by (nonlinear_arith)
            requires
                i64::MIN <= a <= i64::MAX,
                i64::MIN <= b <= i64::MAX,
        ;
    }
    let p = (a as i128) * (b as i128);
    if p < (i64::MIN as i128) || p > (i64::MAX as i128) {
        Err(EvalError::Overflow)
    } else {
        Ok(p as i64)
    }
}

/// What dividing two whole numbers yields: truncating division, with
/// division by zero and `MIN / -1` as errors.
pub open spec fn int_div_s(a: i64, b: i64) -> Result<i64, EvalError> {
    if b == 0 {
        Err(EvalError::DivisionByZero)
    } else if !in_i64(quot_toward_zero(a as int, b as int)) {
        Err(EvalError::Overflow)
    } else {
        Ok(quot_toward_zero(a as int, b as int) as i64)
    }
}

/// Divides two whole numbers, truncating toward zero.
pub fn int_div(a: i64, b: i64) -> (r: Result<i64, EvalError>)
    ensures
        r == int_div_s(a, b),
{
    if b == 0 {
        return Err(EvalError::DivisionByZero);
    }
    match div_toward_zero(a as i128, b as i128) {
        Ok((q, _)) => Ok(q),
        Err(e) => Err(e),
    }
}

} // verus!
