//! The binary-operator coercion table: what each operator returns for
//! each pairing of value shapes.
//!
//! Arithmetic mixes integers and booleans (a boolean coerces to 0 or 1),
//! `+` concatenates strings, `*` repeats a string, `and`/`or` select one
//! of the original operand values by truthiness, and equality and order
//! require operands of one family. Every other pairing is a type error,
//! and a zero divisor is its own error.

use vstd::prelude::*;

use crate::errors::EngineError;
use crate::strutil::{repeat_seq, repeat_str, str_lt, str_lt_exec};
use crate::tokens::Operator;
use crate::value::{lit_view, truthy, LitModel, Literal};

verus! {

/// An integer result when it fits the machine word, else overflow.
pub open spec fn int_result(x: int) -> Result<LitModel, EngineError> {
    if x < isize::MIN as int || x > isize::MAX as int {
        Err(EngineError::Overflow)
    } else {
        Ok(LitModel::Int(x))
    }
}

/// The integer a boolean coerces to.
pub open spec fn bool_int(b: bool) -> int {
    if b {
        1
    } else {
        0
    }
}

/// The model of an evaluation result.
pub open spec fn res_view(r: Result<Literal, EngineError>) -> Result<LitModel, EngineError> {
    match r {
        Ok(v) => Ok(lit_view(v)),
        Err(e) => Err(e),
    }
}

/// What `+` returns: native addition on integers with booleans coerced
/// to 0/1, concatenation on strings, a type error elsewhere.
pub open spec fn add_model(l: LitModel, r: LitModel) -> Result<LitModel, EngineError> {
    match (l, r) {
        (LitModel::Int(a), LitModel::Int(b)) => int_result(a + b),
        (LitModel::Int(a), LitModel::Bool(b)) => int_result(a + bool_int(b)),
        (LitModel::Bool(a), LitModel::Int(b)) => int_result(bool_int(a) + b),
        (LitModel::Bool(a), LitModel::Bool(b)) => int_result(bool_int(a) + bool_int(b)),
        (LitModel::Str(a), LitModel::Str(b)) => Ok(LitModel::Str(a + b)),
        _ => Err(EngineError::TypeError),
    }
}

/// What `-` returns: native subtraction with booleans coerced to 0/1,
/// a type error elsewhere.
pub open spec fn sub_model(l: LitModel, r: LitModel) -> Result<LitModel, EngineError> {
    match (l, r) {
        (LitModel::Int(a), LitModel::Int(b)) => int_result(a - b),
        (LitModel::Int(a), LitModel::Bool(b)) => int_result(a - bool_int(b)),
        (LitModel::Bool(a), LitModel::Int(b)) => int_result(bool_int(a) - b),
        (LitModel::Bool(a), LitModel::Bool(b)) => int_result(bool_int(a) - bool_int(b)),
        _ => Err(EngineError::TypeError),
    }
}

/// What `*` returns: native multiplication with booleans coerced to 0/1,
/// string repetition under an integer or boolean count (a non-positive
/// count yields the empty string), a type error elsewhere.
pub open spec fn mul_model(l: LitModel, r: LitModel) -> Result<LitModel, EngineError> {
    match (l, r) {
        (LitModel::Int(a), LitModel::Int(b)) => int_result(a * b),
        (LitModel::Int(a), LitModel::Bool(b)) => int_result(a * bool_int(b)),
        (LitModel::Bool(a), LitModel::Int(b)) => int_result(bool_int(a) * b),
        (LitModel::Bool(a), LitModel::Bool(b)) => int_result(bool_int(a) * bool_int(b)),
        (LitModel::Str(a), LitModel::Int(b)) => Ok(
            LitModel::Str(
                if b > 0 {
                    repeat_seq(a, b as nat)
                } else {
                    Seq::empty()
                },
            ),
        ),
        (LitModel::Str(a), LitModel::Bool(b)) => Ok(
            LitModel::Str(repeat_seq(a, bool_int(b) as nat)),
        ),
        _ => Err(EngineError::TypeError),
    }
}

/// Signed division truncated toward zero, for a non-zero divisor.
pub open spec fn trunc_div(a: int, b: int) -> int {
    if a == 0 {
        0
    } else if a > 0 && b > 0 {
        a / b
    } else if a < 0 && b < 0 {
        (-a) / (-b)
    } else if a < 0 {
        -((-a) / b)
    } else {
        -(a / (-b))
    }
}

/// What `/` returns: truncated division with booleans coerced to 0/1; a
/// zero divisor is a division-by-zero error, distinct from the type
/// error raised on any non-numeric pairing.
pub open spec fn div_model(l: LitModel, r: LitModel) -> Result<LitModel, EngineError> {
    match (l, r) {
        (LitModel::Int(a), LitModel::Int(b)) => if b == 0 {
            Err(EngineError::DivisionByZero)
        } else {
            int_result(trunc_div(a, b))
        },
        (LitModel::Int(a), LitModel::Bool(b)) => if !b {
            Err(EngineError::DivisionByZero)
        } else {
            int_result(trunc_div(a, 1))
        },
        (LitModel::Bool(a), LitModel::Int(b)) => if b == 0 {
            Err(EngineError::DivisionByZero)
        } else {
            int_result(trunc_div(bool_int(a), b))
        },
        (LitModel::Bool(a), LitModel::Bool(b)) => if !b {
            Err(EngineError::DivisionByZero)
        } else {
            int_result(trunc_div(bool_int(a), 1))
        },
        _ => Err(EngineError::TypeError),
    }
}

/// What `and` returns: the right operand when the left is truthy, else
/// the left operand itself. Both operands are always evaluated first;
/// the operator only selects between the original values.
pub open spec fn and_model(l: LitModel, r: LitModel) -> LitModel {
    if truthy(l) {
        r
    } else {
        l
    }
}

/// What `or` returns: the left operand when it is truthy, else the
/// right operand itself.
pub open spec fn or_model(l: LitModel, r: LitModel) -> LitModel {
    if truthy(l) {
        l
    } else {
        r
    }
}

/// Whether two values compare equal: integers and booleans intermix with
/// booleans coerced to 0/1, strings compare by characters, and any other
/// pairing is a type error.
pub open spec fn raw_eq_model(l: LitModel, r: LitModel) -> Result<bool, EngineError> {
    match (l, r) {
        (LitModel::Int(a), LitModel::Int(b)) => Ok(a == b),
        (LitModel::Int(a), LitModel::Bool(b)) => Ok(a == bool_int(b)),
        (LitModel::Bool(a), LitModel::Int(b)) => Ok(bool_int(a) == b),
        (LitModel::Bool(a), LitModel::Bool(b)) => Ok(a == b),
        (LitModel::Str(a), LitModel::Str(b)) => Ok(a == b),
        _ => Err(EngineError::TypeError),
    }
}

/// Whether the left value orders strictly below the right one, under the
/// same family rules as equality; strings order lexicographically.
pub open spec fn raw_lt_model(l: LitModel, r: LitModel) -> Result<bool, EngineError> {
    match (l, r) {
        (LitModel::Int(a), LitModel::Int(b)) => Ok(a < b),
        (LitModel::Int(a), LitModel::Bool(b)) => Ok(a < bool_int(b)),
        (LitModel::Bool(a), LitModel::Int(b)) => Ok(bool_int(a) < b),
        (LitModel::Bool(a), LitModel::Bool(b)) => Ok(!a && b),
        (LitModel::Str(a), LitModel::Str(b)) => Ok(str_lt(a, b)),
        _ => Err(EngineError::TypeError),
    }
}

/// Whether the left value orders strictly above the right one.
pub open spec fn raw_gt_model(l: LitModel, r: LitModel) -> Result<bool, EngineError> {
    match (l, r) {
        (LitModel::Int(a), LitModel::Int(b)) => Ok(a > b),
        (LitModel::Int(a), LitModel::Bool(b)) => Ok(a > bool_int(b)),
        (LitModel::Bool(a), LitModel::Int(b)) => Ok(bool_int(a) > b),
        (LitModel::Bool(a), LitModel::Bool(b)) => Ok(a && !b),
        (LitModel::Str(a), LitModel::Str(b)) => Ok(str_lt(b, a)),
        _ => Err(EngineError::TypeError),
    }
}

/// Lifts a boolean comparison result into a value result.
pub open spec fn bool_result(r: Result<bool, EngineError>) -> Result<LitModel, EngineError> {
    match r {
        Ok(b) => Ok(LitModel::Bool(b)),
        Err(e) => Err(e),
    }
}

/// Negates a boolean comparison result.
pub open spec fn not_result(r: Result<bool, EngineError>) -> Result<LitModel, EngineError> {
    match r {
        Ok(b) => Ok(LitModel::Bool(!b)),
        Err(e) => Err(e),
    }
}

/// What one application of a binary operator returns. The order
/// operators `>=` and `<=` are the negations of `<` and `>`.
pub open spec fn op_model(op: Operator, l: LitModel, r: LitModel) -> Result<
    LitModel,
    EngineError,
> {
    match op {
        Operator::Add => add_model(l, r),
        Operator::Sub => sub_model(l, r),
        Operator::Mul => mul_model(l, r),
        Operator::Div => div_model(l, r),
        Operator::And => Ok(and_model(l, r)),
        Operator::Or => Ok(or_model(l, r)),
        Operator::Eq => bool_result(raw_eq_model(l, r)),
        Operator::Neq => not_result(raw_eq_model(l, r)),
        Operator::Gt => bool_result(raw_gt_model(l, r)),
        Operator::Lt => bool_result(raw_lt_model(l, r)),
        Operator::Gte => not_result(raw_lt_model(l, r)),
        Operator::Lte => not_result(raw_gt_model(l, r)),
    }
}

/// Applies `+` per the coercion table.
pub fn eval_add(l: Literal, r: Literal) -> (res: Result<Literal, EngineError>)
    ensures
        res_view(res) == add_model(l@, r@),
{
    match (l, r) {
        (Literal::Int(a), Literal::Int(b)) => match a.checked_add(b) {
            Some(x) => Ok(Literal::Int(x)),
            None => Err(EngineError::Overflow),
        },
        (Literal::Int(a), Literal::Bool(b)) => {
            let bi: isize = if b { 1 } else { 0 };
            match a.checked_add(bi) {
                Some(x) => Ok(Literal::Int(x)),
                None => Err(EngineError::Overflow),
            }
        },
        (Literal::Bool(a), Literal::Int(b)) => {
            let ai: isize = if a { 1 } else { 0 };
            match ai.checked_add(b) {
                Some(x) => Ok(Literal::Int(x)),
                None => Err(EngineError::Overflow),
            }
        },
        (Literal::Bool(a), Literal::Bool(b)) => {
            let ai: isize = if a { 1 } else { 0 };
            let bi: isize = if b { 1 } else { 0 };
            Ok(Literal::Int(ai + bi))
        },
        (Literal::Str(a), Literal::Str(b)) => Ok(Literal::Str(a.concat(b.as_str()))),
        _ => Err(EngineError::TypeError),
    }
}

/// Applies `-` per the coercion table.
pub fn eval_sub(l: Literal, r: Literal) -> (res: Result<Literal, EngineError>)
    ensures
        res_view(res) == sub_model(l@, r@),
{
    match (l, r) {
        (Literal::Int(a), Literal::Int(b)) => match a.checked_sub(b) {
            Some(x) => Ok(Literal::Int(x)),
            None => Err(EngineError::Overflow),
        },
        (Literal::Int(a), Literal::Bool(b)) => {
            let bi: isize = if b { 1 } else { 0 };
            match a.checked_sub(bi) {
                Some(x) => Ok(Literal::Int(x)),
                None => Err(EngineError::Overflow),
            }
        },
        (Literal::Bool(a), Literal::Int(b)) => {
            let ai: isize = if a { 1 } else { 0 };
            match ai.checked_sub(b) {
                Some(x) => Ok(Literal::Int(x)),
                None => Err(EngineError::Overflow),
            }
        },
        (Literal::Bool(a), Literal::Bool(b)) => {
            let ai: isize = if a { 1 } else { 0 };
            let bi: isize = if b { 1 } else { 0 };
            Ok(Literal::Int(ai - bi))
        },
        _ => Err(EngineError::TypeError),
    }
}

/// Applies `*` per the coercion table.
pub fn eval_mul(l: Literal, r: Literal) -> (res: Result<Literal, EngineError>)
    ensures
        res_view(res) == mul_model(l@, r@),
{
    match (l, r) {
        (Literal::Int(a), Literal::Int(b)) => match a.checked_mul(b) {
            Some(x) => Ok(Literal::Int(x)),
            None => Err(EngineError::Overflow),
        },
        (Literal::Int(a), Literal::Bool(b)) => {
            let bi: isize = if b { 1 } else { 0 };
            Ok(Literal::Int(a * bi))
        },
        (Literal::Bool(a), Literal::Int(b)) => {
            let ai: isize = if a { 1 } else { 0 };
            Ok(Literal::Int(ai * b))
        },
        (Literal::Bool(a), Literal::Bool(b)) => {
            let ai: isize = if a { 1 } else { 0 };
            let bi: isize = if b { 1 } else { 0 };
            Ok(Literal::Int(ai * bi))
        },
        (Literal::Str(a), Literal::Int(b)) => {
            if b > 0 {
                Ok(Literal::Str(repeat_str(a.as_str(), b as usize)))
            } else {
                Ok(Literal::Str(String::new()))
            }
        },
        (Literal::Str(a), Literal::Bool(b)) => {
            let n: usize = if b { 1 } else { 0 };
            Ok(Literal::Str(repeat_str(a.as_str(), n)))
        },
        _ => Err(EngineError::TypeError),
    }
}

/// Applies `/` per the coercion table.
pub fn eval_div(l: Literal, r: Literal) -> (res: Result<Literal, EngineError>)
    ensures
        res_view(res) == div_model(l@, r@),
{
    match (l, r) {
        (Literal::Int(a), Literal::Int(b)) => {
            if b == 0 {
                Err(EngineError::DivisionByZero)
            } else {
                match a.checked_div(b) {
                    Some(x) => Ok(Literal::Int(x)),
                    None => Err(EngineError::Overflow),
                }
            }
        },
        (Literal::Int(a), Literal::Bool(b)) => {
            if !b {
                Err(EngineError::DivisionByZero)
            } else {
                Ok(Literal::Int(a))
            }
        },
        (Literal::Bool(a), Literal::Int(b)) => {
            if b == 0 {
                Err(EngineError::DivisionByZero)
            } else {
                let ai: isize = if a { 1 } else { 0 };
                match ai.checked_div(b) {
                    Some(x) => Ok(Literal::Int(x)),
                    None => Err(EngineError::Overflow),
                }
            }
        },
        (Literal::Bool(a), Literal::Bool(b)) => {
            if !b {
                Err(EngineError::DivisionByZero)
            } else {
                let ai: isize = if a { 1 } else { 0 };
                Ok(Literal::Int(ai))
            }
        },
        _ => Err(EngineError::TypeError),
    }
}

/// Applies `and`: selects by the left operand's truthiness.
pub fn eval_and(l: Literal, r: Literal) -> (res: Result<Literal, EngineError>)
    ensures
        res_view(res) == Ok::<LitModel, EngineError>(and_model(l@, r@)),
{
    if l.is_truthy() {
        Ok(r)
    } else {
        Ok(l)
    }
}

/// Applies `or`: selects by the left operand's truthiness.
pub fn eval_or(l: Literal, r: Literal) -> (res: Result<Literal, EngineError>)
    ensures
        res_view(res) == Ok::<LitModel, EngineError>(or_model(l@, r@)),
{
    if l.is_truthy() {
        Ok(l)
    } else {
        Ok(r)
    }
}

/// Decides raw equality of two values per the coercion table.
pub fn eval_raw_eq(l: Literal, r: Literal) -> (res: Result<bool, EngineError>)
    ensures
        res == raw_eq_model(l@, r@),
{
    match (l, r) {
        (Literal::Int(a), Literal::Int(b)) => Ok(a == b),
        (Literal::Int(a), Literal::Bool(b)) => {
            let bi: isize = if b { 1 } else { 0 };
            Ok(a == bi)
        },
        (Literal::Bool(a), Literal::Int(b)) => {
            let ai: isize = if a { 1 } else { 0 };
            Ok(ai == b)
        },
        (Literal::Bool(a), Literal::Bool(b)) => Ok(a == b),
        (Literal::Str(a), Literal::Str(b)) => Ok(crate::strutil::str_eq_exec(
            a.as_str(),
            b.as_str(),
        )),
        _ => Err(EngineError::TypeError),
    }
}

/// Decides raw strict order below per the coercion table.
pub fn eval_raw_lt(l: Literal, r: Literal) -> (res: Result<bool, EngineError>)
    ensures
        res == raw_lt_model(l@, r@),
{
    match (l, r) {
        (Literal::Int(a), Literal::Int(b)) => Ok(a < b),
        (Literal::Int(a), Literal::Bool(b)) => {
            let bi: isize = if b { 1 } else { 0 };
            Ok(a < bi)
        },
        (Literal::Bool(a), Literal::Int(b)) => {
            let ai: isize = if a { 1 } else { 0 };
            Ok(ai < b)
        },
        (Literal::Bool(a), Literal::Bool(b)) => Ok(!a && b),
        (Literal::Str(a), Literal::Str(b)) => Ok(str_lt_exec(a.as_str(), b.as_str())),
        _ => Err(EngineError::TypeError),
    }
}

/// Decides raw strict order above per the coercion table.
pub fn eval_raw_gt(l: Literal, r: Literal) -> (res: Result<bool, EngineError>)
    ensures
        res == raw_gt_model(l@, r@),
{
    match (l, r) {
        (Literal::Int(a), Literal::Int(b)) => Ok(a > b),
        (Literal::Int(a), Literal::Bool(b)) => {
            let bi: isize = if b { 1 } else { 0 };
            Ok(a > bi)
        },
        (Literal::Bool(a), Literal::Int(b)) => {
            let ai: isize = if a { 1 } else { 0 };
            Ok(ai > b)
        },
        (Literal::Bool(a), Literal::Bool(b)) => Ok(a && !b),
        (Literal::Str(a), Literal::Str(b)) => Ok(str_lt_exec(b.as_str(), a.as_str())),
        _ => Err(EngineError::TypeError),
    }
}

/// Applies `==`.
pub fn eval_eq(l: Literal, r: Literal) -> (res: Result<Literal, EngineError>)
    ensures
        res_view(res) == bool_result(raw_eq_model(l@, r@)),
{
    match eval_raw_eq(l, r) {
        Ok(b) => Ok(Literal::Bool(b)),
        Err(e) => Err(e),
    }
}

/// Applies `!=`.
pub fn eval_neq(l: Literal, r: Literal) -> (res: Result<Literal, EngineError>)
    ensures
        res_view(res) == not_result(raw_eq_model(l@, r@)),
{
    match eval_raw_eq(l, r) {
        Ok(b) => Ok(Literal::Bool(!b)),
        Err(e) => Err(e),
    }
}

/// Applies `>`.
pub fn eval_gt(l: Literal, r: Literal) -> (res: Result<Literal, EngineError>)
    ensures
        res_view(res) == bool_result(raw_gt_model(l@, r@)),
{
    match eval_raw_gt(l, r) {
        Ok(b) => Ok(Literal::Bool(b)),
        Err(e) => Err(e),
    }
}

/// Applies `<`.
pub fn eval_lt(l: Literal, r: Literal) -> (res: Result<Literal, EngineError>)
    ensures
        res_view(res) == bool_result(raw_lt_model(l@, r@)),
{
    match eval_raw_lt(l, r) {
        Ok(b) => Ok(Literal::Bool(b)),
        Err(e) => Err(e),
    }
}

/// Applies `>=` as the negation of `<`.
pub fn eval_gte(l: Literal, r: Literal) -> (res: Result<Literal, EngineError>)
    ensures
        res_view(res) == not_result(raw_lt_model(l@, r@)),
{
    match eval_raw_lt(l, r) {
        Ok(b) => Ok(Literal::Bool(!b)),
        Err(e) => Err(e),
    }
}

/// Applies `<=` as the negation of `>`.
pub fn eval_lte(l: Literal, r: Literal) -> (res: Result<Literal, EngineError>)
    ensures
        res_view(res) == not_result(raw_gt_model(l@, r@)),
{
    match eval_raw_gt(l, r) {
        Ok(b) => Ok(Literal::Bool(!b)),
        Err(e) => Err(e),
    }
}

/// Applies one binary operator per the coercion table.
pub fn apply_op(op: Operator, l: Literal, r: Literal) -> (res: Result<Literal, EngineError>)
    ensures
        res_view(res) == op_model(op, l@, r@),
{
    match op {
        Operator::Add => eval_add(l, r),
        Operator::Sub => eval_sub(l, r),
        Operator::Mul => eval_mul(l, r),
        Operator::Div => eval_div(l, r),
        Operator::And => eval_and(l, r),
        Operator::Or => eval_or(l, r),
        Operator::Eq => eval_eq(l, r),
        Operator::Neq => eval_neq(l, r),
        Operator::Gt => eval_gt(l, r),
        Operator::Lt => eval_lt(l, r),
        Operator::Gte => eval_gte(l, r),
        Operator::Lte => eval_lte(l, r),
    }
}

} // verus!
