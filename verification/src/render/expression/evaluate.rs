//! The expression evaluator.
//!
//! An expression is read into a flat list of values and operators; nested
//! parentheses, arrays, objects and references are resolved while it is read.
//! The list is then reduced in passes, one for each class of operators in the
//! order of their precedence, until one value is left.

use vstd::prelude::*;
use crate::error::{Error, ErrorKind, Failure};
use crate::render::expression::cast::{
    answer_float, cast_as_f64, cast_as_f64_pair, cast_as_i64, cast_as_i64_pair, cast_as_string,
    cast_float, cast_float_pair, cast_int, cast_int_pair, cast_text, float_answer, rejected,
};
use crate::render::expression::tokenize::{tokens_view, ExpressionToken, TokenView};
use crate::render::expression::utils::{is_false, is_false_json_value};
use crate::render::render_context::{ContextView, RenderContext};
use crate::request::{FactView, Request, RequestView};
use crate::text::{
    copy_range, is_text, push_bytes, push_decimal, push_text, signed_decimal_bytes, text,
};
use crate::value::{
    clone_value, entries_view, find_entry, float_is_finite, float_is_zero, float_less, float_same,
    insert_entry, is_finite_float, is_zero_float, less_float, lookup_entry, parse_int,
    parse_int_bytes, put_entry, same_float, value_matches, values_match, values_view, Entries,
    PomlValue, ValueView, lemma_array_view, lemma_object_view,
};

verus! {

/// An operator of the expression language.
#[derive(Debug, Clone, Copy, PartialEq, Eq, Structural)]
pub enum Operator {
    Not,
    Times,
    Divide,
    Modulo,
    Plus,
    Minus,
    Less,
    LessEqual,
    Greater,
    GreaterEqual,
    In,
    StrictEqual,
    StrictNotEqual,
    And,
    Or,
    Question,
    Colon,
    /// A name that is no operator: it is never reduced.
    Unknown,
}

/// A class of binary operators of one precedence, from the one that binds
/// most to the one that binds least.
#[derive(Debug, Clone, Copy, PartialEq, Eq, Structural)]
pub enum Level {
    /// `*`, `/` and `%`.
    Product,
    /// `+` and `-`.
    Sum,
    /// `<`, `<=`, `>`, `>=` and `in`.
    Relational,
    /// `===` and `!==`.
    Equality,
    /// `&&`.
    And,
    /// `||`.
    Or,
}

/// A part of an expression that is being reduced.
#[derive(Debug, PartialEq)]
pub enum ExpressionPart {
    Value(PomlValue),
    Operator(Operator),
}

pub ghost enum PartView {
    Value(ValueView),
    Operator(Operator),
}

impl View for ExpressionPart {
    type V = PartView;

    open spec fn view(&self) -> PartView {
        match self {
            ExpressionPart::Value(v) => PartView::Value(v@),
            ExpressionPart::Operator(op) => PartView::Operator(*op),
        }
    }
}

/// The values of a list of parts.
pub open spec fn parts_view(parts: Seq<ExpressionPart>) -> Seq<PartView> {
    Seq::new(parts.len(), |i: int| parts[i]@)
}

// ---------------------------------------------------------------------------
// The model: operators
// ---------------------------------------------------------------------------

/// The operator that a name spells.
pub open spec fn operator_of(name: Seq<u8>) -> Operator {
    if name == text("!") {
        Operator::Not
    } else if name == text("*") {
        Operator::Times
    } else if name == text("/") {
        Operator::Divide
    } else if name == text("%") {
        Operator::Modulo
    } else if name == text("+") {
        Operator::Plus
    } else if name == text("-") {
        Operator::Minus
    } else if name == text("<") {
        Operator::Less
    } else if name == text("<=") {
        Operator::LessEqual
    } else if name == text(">") {
        Operator::Greater
    } else if name == text(">=") {
        Operator::GreaterEqual
    } else if name == text("in") {
        Operator::In
    } else if name == text("===") {
        Operator::StrictEqual
    } else if name == text("!==") {
        Operator::StrictNotEqual
    } else if name == text("&&") {
        Operator::And
    } else if name == text("||") {
        Operator::Or
    } else if name == text("?") {
        Operator::Question
    } else if name == text(":") {
        Operator::Colon
    } else {
        Operator::Unknown
    }
}

/// Whether an operator belongs to a level.
pub open spec fn level_has(level: Level, op: Operator) -> bool {
    match level {
        Level::Product => op == Operator::Times || op == Operator::Divide || op
            == Operator::Modulo,
        Level::Sum => op == Operator::Plus || op == Operator::Minus,
        Level::Relational => op == Operator::Less || op == Operator::LessEqual || op
            == Operator::Greater || op == Operator::GreaterEqual || op == Operator::In,
        Level::Equality => op == Operator::StrictEqual || op == Operator::StrictNotEqual,
        Level::And => op == Operator::And,
        Level::Or => op == Operator::Or,
    }
}

/// An integer result, rejected where it leaves the 64-bit range.
pub open spec fn int_result(n: int) -> Result<ValueView, Failure> {
    if i64::MIN <= n <= i64::MAX {
        Ok(ValueView::Int(n as i64))
    } else {
        rejected()
    }
}

/// A floating-point result: the answer to a request, rejected where it is
/// infinite or not a number.
pub open spec fn float_result(facts: Seq<FactView>, request: RequestView) -> Result<
    ValueView,
    Failure,
> {
    match answer_float(facts, request) {
        Err(f) => Err(f),
        Ok(bits) => if float_is_finite(bits) {
            Ok(ValueView::Float(bits))
        } else {
            rejected()
        },
    }
}

/// The remainder of a division that rounds towards zero: it has the sign of
/// the dividend.
pub open spec fn truncated_remainder(a: int, b: int) -> int
    recommends
        b != 0,
{
    let divisor = if b < 0 {
        -b
    } else {
        b
    };
    if a >= 0 {
        a % divisor
    } else {
        -((-a) % divisor)
    }
}

/// `a + b`: the sum of two integers; else the sum of two doubles; else the
/// two texts joined. The first rule that applies wins.
pub open spec fn spec_plus(a: ValueView, b: ValueView, facts: Seq<FactView>) -> Result<
    ValueView,
    Failure,
> {
    match cast_int_pair(a, b) {
        Some((x, y)) => int_result(x + y),
        None => match cast_float_pair(a, b, facts) {
            Err(f) => Err(f),
            Ok(Some((x, y))) => float_result(facts, RequestView::FloatAdd(x, y)),
            Ok(None) => match cast_text(a, facts) {
                Err(f) => Err(f),
                Ok(ta) => match cast_text(b, facts) {
                    Err(f) => Err(f),
                    Ok(tb) => match (ta, tb) {
                        (Some(x), Some(y)) => Ok(ValueView::String(x + y)),
                        _ => rejected(),
                    },
                },
            },
        },
    }
}

/// `a - b` and `a * b`: on two integers; else on two doubles.
pub open spec fn spec_arith(op: Operator, a: ValueView, b: ValueView, facts: Seq<FactView>) -> Result<
    ValueView,
    Failure,
> {
    match cast_int_pair(a, b) {
        Some((x, y)) => if op == Operator::Minus {
            int_result(x - y)
        } else {
            int_result(x * y)
        },
        None => match cast_float_pair(a, b, facts) {
            Err(f) => Err(f),
            Ok(Some((x, y))) => float_result(
                facts,
                if op == Operator::Minus {
                    RequestView::FloatSub(x, y)
                } else {
                    RequestView::FloatMul(x, y)
                },
            ),
            Ok(None) => rejected(),
        },
    }
}

/// `a / b`: always on doubles; a divisor of zero is rejected.
pub open spec fn spec_divide(a: ValueView, b: ValueView, facts: Seq<FactView>) -> Result<
    ValueView,
    Failure,
> {
    match cast_float(a, facts) {
        Err(f) => Err(f),
        Ok(None) => rejected(),
        Ok(Some(x)) => match cast_float(b, facts) {
            Err(f) => Err(f),
            Ok(None) => rejected(),
            Ok(Some(y)) => if float_is_zero(y) {
                rejected()
            } else {
                float_result(facts, RequestView::FloatDiv(x, y))
            },
        },
    }
}

/// `a % b`: on integers only; a divisor of zero is rejected.
pub open spec fn spec_modulo(a: ValueView, b: ValueView) -> Result<ValueView, Failure> {
    match cast_int(a) {
        None => rejected(),
        Some(x) => match cast_int(b) {
            None => rejected(),
            Some(y) => if y == 0 {
                rejected()
            } else {
                int_result(truncated_remainder(x as int, y as int))
            },
        },
    }
}

/// `<`, `<=`, `>` and `>=`: on doubles.
pub open spec fn spec_relation(op: Operator, a: ValueView, b: ValueView, facts: Seq<FactView>) -> Result<
    ValueView,
    Failure,
> {
    match cast_float_pair(a, b, facts) {
        Err(f) => Err(f),
        Ok(None) => rejected(),
        Ok(Some((x, y))) => Ok(
            ValueView::Bool(
                match op {
                    Operator::Less => float_less(x, y),
                    Operator::LessEqual => float_less(x, y) || float_same(x, y),
                    Operator::Greater => float_less(y, x),
                    _ => float_less(y, x) || float_same(x, y),
                },
            ),
        ),
    }
}

/// `a in b`: whether `a` is an index of the array `b`, or a key of the
/// object `b`.
pub open spec fn spec_in(a: ValueView, b: ValueView) -> Result<ValueView, Failure> {
    match b {
        ValueView::Array(items) => match cast_int(a) {
            Some(idx) => Ok(ValueView::Bool(0 <= idx < items.len())),
            None => rejected(),
        },
        ValueView::Object(entries) => match a {
            ValueView::String(key) => Ok(ValueView::Bool(lookup_entry(entries, key) is Some)),
            _ => rejected(),
        },
        _ => rejected(),
    }
}

/// The value of `a op b` for a binary operator.
pub open spec fn apply_binary(op: Operator, a: ValueView, b: ValueView, facts: Seq<FactView>) -> Result<
    ValueView,
    Failure,
> {
    match op {
        Operator::Plus => spec_plus(a, b, facts),
        Operator::Minus => spec_arith(op, a, b, facts),
        Operator::Times => spec_arith(op, a, b, facts),
        Operator::Divide => spec_divide(a, b, facts),
        Operator::Modulo => spec_modulo(a, b),
        Operator::Less => spec_relation(op, a, b, facts),
        Operator::LessEqual => spec_relation(op, a, b, facts),
        Operator::Greater => spec_relation(op, a, b, facts),
        Operator::GreaterEqual => spec_relation(op, a, b, facts),
        Operator::In => spec_in(a, b),
        Operator::StrictEqual => Ok(ValueView::Bool(value_matches(a, b, true))),
        Operator::StrictNotEqual => Ok(ValueView::Bool(!value_matches(a, b, true))),
        Operator::And => Ok(ValueView::Bool(!is_false(a) && !is_false(b))),
        Operator::Or => Ok(ValueView::Bool(!is_false(a) || !is_false(b))),
        _ => rejected(),
    }
}

// ---------------------------------------------------------------------------
// The model: the reduction passes
// ---------------------------------------------------------------------------

/// One pass over the parts from index `i` on, from left to right: every
/// `value op value` whose operator belongs to the level becomes its value;
/// every other part is kept. `acc` holds what the pass has produced so far.
pub open spec fn reduce_binary(
    parts: Seq<PartView>,
    i: int,
    acc: Seq<PartView>,
    level: Level,
    facts: Seq<FactView>,
) -> Result<Seq<PartView>, Failure>
    decreases parts.len() - i,
{
    if !(0 <= i < parts.len()) {
        Ok(acc)
    } else {
        match parts[i] {
            PartView::Operator(op) => if level_has(level, op) {
                if acc.len() == 0 || !(acc.last() is Value) {
                    rejected()
                } else if i + 1 >= parts.len() || !(parts[i + 1] is Value) {
                    rejected()
                } else {
                    match apply_binary(op, acc.last()->Value_0, parts[i + 1]->Value_0, facts) {
                        Err(f) => Err(f),
                        Ok(v) => reduce_binary(
                            parts,
                            i + 2,
                            acc.drop_last().push(PartView::Value(v)),
                            level,
                            facts,
                        ),
                    }
                }
            } else {
                reduce_binary(parts, i + 1, acc.push(parts[i]), level, facts)
            },
            _ => reduce_binary(parts, i + 1, acc.push(parts[i]), level, facts),
        }
    }
}

/// The pass for `!`: every `! value` becomes the negation of the value's
/// truth.
pub open spec fn reduce_not(parts: Seq<PartView>, i: int, acc: Seq<PartView>) -> Result<
    Seq<PartView>,
    Failure,
>
    decreases parts.len() - i,
{
    if !(0 <= i < parts.len()) {
        Ok(acc)
    } else if parts[i] == PartView::Operator(Operator::Not) {
        if i + 1 >= parts.len() || !(parts[i + 1] is Value) {
            rejected()
        } else {
            reduce_not(
                parts,
                i + 2,
                acc.push(PartView::Value(ValueView::Bool(is_false(parts[i + 1]->Value_0)))),
            )
        }
    } else {
        reduce_not(parts, i + 1, acc.push(parts[i]))
    }
}

/// Whether some part is the given operator.
pub open spec fn has_operator(parts: Seq<PartView>, op: Operator) -> bool {
    exists|i: int| 0 <= i < parts.len() && #[trigger] parts[i] == PartView::Operator(op)
}

/// The pass for `? :`, from right to left, so that nested conditionals
/// associate to the right. `done` parts have been read from the right end;
/// `acc` holds the result so far, rightmost part first.
pub open spec fn reduce_ternary(parts: Seq<PartView>, done: int, acc: Seq<PartView>) -> Result<
    Seq<PartView>,
    Failure,
>
    decreases parts.len() - done,
{
    if !(0 <= done < parts.len()) {
        Ok(acc.reverse())
    } else {
        let i = parts.len() - done - 1;
        if parts[i] == PartView::Operator(Operator::Question) {
            if i == 0 {
                rejected()
            } else if acc.len() < 3 || !(acc[acc.len() - 1] is Value) || acc[acc.len() - 2]
                != PartView::Operator(Operator::Colon) || !(acc[acc.len() - 3] is Value) {
                rejected()
            } else if !(parts[i - 1] is Value) {
                rejected()
            } else {
                let chosen = if is_false(parts[i - 1]->Value_0) {
                    acc[acc.len() - 3]
                } else {
                    acc[acc.len() - 1]
                };
                reduce_ternary(parts, done + 2, acc.subrange(0, acc.len() - 3).push(chosen))
            }
        } else if parts[i] == PartView::Operator(Operator::Colon) {
            if acc.len() == 0 || !(acc.last() is Value) {
                rejected()
            } else {
                reduce_ternary(parts, done + 1, acc.push(parts[i]))
            }
        } else {
            reduce_ternary(parts, done + 1, acc.push(parts[i]))
        }
    }
}

/// The pass for `? :`: parts without a `?` are left as they are.
pub open spec fn ternary_pass(parts: Seq<PartView>) -> Result<Seq<PartView>, Failure> {
    if has_operator(parts, Operator::Question) {
        reduce_ternary(parts, 0, Seq::empty())
    } else {
        Ok(parts)
    }
}

/// The binary passes from a level on, in the order of precedence.
pub open spec fn binary_passes(parts: Seq<PartView>, facts: Seq<FactView>) -> Result<
    Seq<PartView>,
    Failure,
> {
    match reduce_binary(parts, 0, Seq::empty(), Level::Product, facts) {
        Err(f) => Err(f),
        Ok(products) => match reduce_binary(products, 0, Seq::empty(), Level::Sum, facts) {
            Err(f) => Err(f),
            Ok(sums) => match reduce_binary(sums, 0, Seq::empty(), Level::Relational, facts) {
                Err(f) => Err(f),
                Ok(relations) => match reduce_binary(relations, 0, Seq::empty(), Level::Equality, facts) {
                    Err(f) => Err(f),
                    Ok(equalities) => match reduce_binary(equalities, 0, Seq::empty(), Level::And, facts) {
                        Err(f) => Err(f),
                        Ok(conjunctions) => reduce_binary(conjunctions, 0, Seq::empty(), Level::Or, facts),
                    },
                },
            },
        },
    }
}

/// The value of a flat list of parts: the passes for `!`, then `* / %`, then
/// `+ -`, then `< <= > >= in`, then `=== !==`, then `&&`, then `||`, then
/// `? :` must leave exactly one value.
pub open spec fn reduce_all(parts: Seq<PartView>, facts: Seq<FactView>) -> Result<
    ValueView,
    Failure,
> {
    match reduce_not(parts, 0, Seq::empty()) {
        Err(f) => Err(f),
        Ok(negated) => match binary_passes(negated, facts) {
            Err(f) => Err(f),
            Ok(disjunctions) => match ternary_pass(disjunctions) {
                Err(f) => Err(f),
                Ok(conditionals) => if conditionals.len() == 1 && conditionals[0] is Value {
                    Ok(conditionals[0]->Value_0)
                } else {
                    rejected()
                },
            },
        },
    }
}

// ---------------------------------------------------------------------------
// Operators
// ---------------------------------------------------------------------------

fn reject<T>(message: &str) -> (r: Result<T, Error>)
    ensures
        r is Err,
        r->Err_0.rejects(ErrorKind::EvaluatorError),
{
    Err(Error::fixed(ErrorKind::EvaluatorError, message))
}

/// The operator that a name spells.
pub fn classify_operator(name: &[u8]) -> (r: Operator)
    ensures
        r == operator_of(name@),
{
    if is_text(name, "!") {
        Operator::Not
    } else if is_text(name, "*") {
        Operator::Times
    } else if is_text(name, "/") {
        Operator::Divide
    } else if is_text(name, "%") {
        Operator::Modulo
    } else if is_text(name, "+") {
        Operator::Plus
    } else if is_text(name, "-") {
        Operator::Minus
    } else if is_text(name, "<") {
        Operator::Less
    } else if is_text(name, "<=") {
        Operator::LessEqual
    } else if is_text(name, ">") {
        Operator::Greater
    } else if is_text(name, ">=") {
        Operator::GreaterEqual
    } else if is_text(name, "in") {
        Operator::In
    } else if is_text(name, "===") {
        Operator::StrictEqual
    } else if is_text(name, "!==") {
        Operator::StrictNotEqual
    } else if is_text(name, "&&") {
        Operator::And
    } else if is_text(name, "||") {
        Operator::Or
    } else if is_text(name, "?") {
        Operator::Question
    } else if is_text(name, ":") {
        Operator::Colon
    } else {
        Operator::Unknown
    }
}

/// Whether an operator belongs to a level.
pub fn in_level(level: Level, op: Operator) -> (r: bool)
    ensures
        r == level_has(level, op),
{
    match level {
        Level::Product => matches!(op, Operator::Times | Operator::Divide | Operator::Modulo),
        Level::Sum => matches!(op, Operator::Plus | Operator::Minus),
        Level::Relational => matches!(
            op,
            Operator::Less | Operator::LessEqual | Operator::Greater | Operator::GreaterEqual
                | Operator::In
        ),
        Level::Equality => matches!(op, Operator::StrictEqual | Operator::StrictNotEqual),
        Level::And => matches!(op, Operator::And),
        Level::Or => matches!(op, Operator::Or),
    }
}

fn float_value(context: &RenderContext, request: Request) -> (r: Result<PomlValue, Error>)
    ensures
        match r {
            Ok(v) => float_result(context@.facts, request@) == Ok::<ValueView, Failure>(v@),
            Err(e) => float_result(context@.facts, request@) == Err::<ValueView, Failure>(
                e.failure(),
            ),
        },
{
    let bits = float_answer(context, request)?;
    if is_finite_float(bits) {
        Ok(PomlValue::Float(bits))
    } else {
        reject("The result is not a finite number.")
    }
}

fn int_value(n: i128) -> (r: Result<PomlValue, Error>)
    ensures
        match r {
            Ok(v) => int_result(n as int) == Ok::<ValueView, Failure>(v@),
            Err(e) => int_result(n as int) == Err::<ValueView, Failure>(e.failure()),
        },
{
    if n < i64::MIN as i128 || n > i64::MAX as i128 {
        reject("The result does not fit a 64-bit integer.")
    } else {
        Ok(PomlValue::Int(n as i64))
    }
}

/// `a + b`; see `spec_plus`.
pub fn handle_plus_operator(a: &PomlValue, b: &PomlValue, context: &RenderContext) -> (r: Result<
    PomlValue,
    Error,
>)
    ensures
        match r {
            Ok(v) => spec_plus(a@, b@, context@.facts) == Ok::<ValueView, Failure>(v@),
            Err(e) => spec_plus(a@, b@, context@.facts) == Err::<ValueView, Failure>(e.failure()),
        },
{
    if let Some((int_a, int_b)) = cast_as_i64_pair(a, b) {
        return int_value(int_a as i128 + int_b as i128);
    }
    if let Some((num_a, num_b)) = cast_as_f64_pair(a, b, context)? {
        return float_value(context, Request::FloatAdd(num_a, num_b));
    }
    let str_a = cast_as_string(a, context)?;
    let str_b = cast_as_string(b, context)?;
    match (str_a, str_b) {
        (Some(mut x), Some(y)) => {
            push_bytes(&mut x, y.as_slice());
            Ok(PomlValue::String(x))
        },
        _ => reject("Failed to perform plus operator."),
    }
}

/// `a - b`; see `spec_arith`.
pub fn handle_minus_operator(a: &PomlValue, b: &PomlValue, context: &RenderContext) -> (r: Result<
    PomlValue,
    Error,
>)
    ensures
        match r {
            Ok(v) => spec_arith(Operator::Minus, a@, b@, context@.facts) == Ok::<
                ValueView,
                Failure,
            >(v@),
            Err(e) => spec_arith(Operator::Minus, a@, b@, context@.facts) == Err::<
                ValueView,
                Failure,
            >(e.failure()),
        },
{
    if let Some((int_a, int_b)) = cast_as_i64_pair(a, b) {
        return int_value(int_a as i128 - int_b as i128);
    }
    if let Some((num_a, num_b)) = cast_as_f64_pair(a, b, context)? {
        return float_value(context, Request::FloatSub(num_a, num_b));
    }
    reject("Failed to perform minus operator.")
}

/// `a * b`; see `spec_arith`.
pub fn handle_times_operator(a: &PomlValue, b: &PomlValue, context: &RenderContext) -> (r: Result<
    PomlValue,
    Error,
>)
    ensures
        match r {
            Ok(v) => spec_arith(Operator::Times, a@, b@, context@.facts) == Ok::<
                ValueView,
                Failure,
            >(v@),
            Err(e) => spec_arith(Operator::Times, a@, b@, context@.facts) == Err::<
                ValueView,
                Failure,
            >(e.failure()),
        },
{
    if let Some((int_a, int_b)) = cast_as_i64_pair(a, b) {
        assert(-0x4000_0000_0000_0000_0000_0000_0000_0000 <= int_a * int_b
            <= 0x4000_0000_0000_0000_0000_0000_0000_0000) by (nonlinear_arith)
            requires
                -0x8000_0000_0000_0000 <= int_a <= 0x7fff_ffff_ffff_ffff,
                -0x8000_0000_0000_0000 <= int_b <= 0x7fff_ffff_ffff_ffff,
        ;
        return int_value(int_a as i128 * int_b as i128);
    }
    if let Some((num_a, num_b)) = cast_as_f64_pair(a, b, context)? {
        return float_value(context, Request::FloatMul(num_a, num_b));
    }
    reject("Failed to perform times operator.")
}

/// `a / b`; see `spec_divide`.
pub fn handle_divide_operator(a: &PomlValue, b: &PomlValue, context: &RenderContext) -> (r: Result<
    PomlValue,
    Error,
>)
    ensures
        match r {
            Ok(v) => spec_divide(a@, b@, context@.facts) == Ok::<ValueView, Failure>(v@),
            Err(e) => spec_divide(a@, b@, context@.facts) == Err::<ValueView, Failure>(
                e.failure(),
            ),
        },
{
    let num_a = match cast_as_f64(a, context)? {
        Some(x) => x,
        None => {
            return reject("Failed to cast first operand as number for division.");
        },
    };
    let num_b = match cast_as_f64(b, context)? {
        Some(x) => x,
        None => {
            return reject("Failed to cast second operand as number for division.");
        },
    };
    if is_zero_float(num_b) {
        return reject("Division by zero");
    }
    float_value(context, Request::FloatDiv(num_a, num_b))
}

/// `a % b`; see `spec_modulo`.
pub fn handle_mod_operator(a: &PomlValue, b: &PomlValue) -> (r: Result<PomlValue, Error>)
    ensures
        match r {
            Ok(v) => spec_modulo(a@, b@) == Ok::<ValueView, Failure>(v@),
            Err(e) => spec_modulo(a@, b@) == Err::<ValueView, Failure>(e.failure()),
        },
{
    let int_a = match cast_as_i64(a) {
        Some(x) => x,
        None => {
            return reject("Failed to cast first operand as integer for modulo.");
        },
    };
    let int_b = match cast_as_i64(b) {
        Some(x) => x,
        None => {
            return reject("Failed to cast second operand as integer for modulo.");
        },
    };
    if int_b == 0 {
        return reject("Modulo by zero");
    }
    let wide_a = int_a as i128;
    let wide_b = int_b as i128;
    let divisor: u128 = if wide_b < 0 {
        (-wide_b) as u128
    } else {
        wide_b as u128
    };
    let remainder: i128 = if wide_a >= 0 {
        ((wide_a as u128) % divisor) as i128
    } else {
        -((((-wide_a) as u128) % divisor) as i128)
    };
    int_value(remainder)
}

fn relation(op: Operator, a: &PomlValue, b: &PomlValue, context: &RenderContext) -> (r: Result<PomlValue, Error>)
    requires
        op == Operator::Less || op == Operator::LessEqual || op == Operator::Greater || op
            == Operator::GreaterEqual,
    ensures
        match r {
            Ok(v) => spec_relation(op, a@, b@, context@.facts) == Ok::<ValueView, Failure>(v@),
            Err(e) => spec_relation(op, a@, b@, context@.facts) == Err::<ValueView, Failure>(
                e.failure(),
            ),
        },
{
    match cast_as_f64_pair(a, b, context)? {
        Some((x, y)) => Ok(
            PomlValue::Bool(
                match op {
                    Operator::Less => less_float(x, y),
                    Operator::LessEqual => less_float(x, y) || same_float(x, y),
                    Operator::Greater => less_float(y, x),
                    _ => less_float(y, x) || same_float(x, y),
                },
            ),
        ),
        None => reject("Failed to compare two values that are not both numbers."),
    }
}

/// `a < b`; see `spec_relation`.
pub fn handle_less_than_operator(a: &PomlValue, b: &PomlValue, context: &RenderContext) -> (r: Result<
    PomlValue,
    Error,
>)
    ensures
        match r {
            Ok(v) => spec_relation(Operator::Less, a@, b@, context@.facts) == Ok::<
                ValueView,
                Failure,
            >(v@),
            Err(e) => spec_relation(Operator::Less, a@, b@, context@.facts) == Err::<
                ValueView,
                Failure,
            >(e.failure()),
        },
{
    relation(Operator::Less, a, b, context)
}

/// `a <= b`; see `spec_relation`.
pub fn handle_less_than_or_equal_operator(a: &PomlValue, b: &PomlValue, context: &RenderContext) -> (r:
    Result<PomlValue, Error>)
    ensures
        match r {
            Ok(v) => spec_relation(Operator::LessEqual, a@, b@, context@.facts) == Ok::<
                ValueView,
                Failure,
            >(v@),
            Err(e) => spec_relation(Operator::LessEqual, a@, b@, context@.facts) == Err::<
                ValueView,
                Failure,
            >(e.failure()),
        },
{
    relation(Operator::LessEqual, a, b, context)
}

/// `a > b`; see `spec_relation`.
pub fn handle_greater_than_operator(a: &PomlValue, b: &PomlValue, context: &RenderContext) -> (r: Result<
    PomlValue,
    Error,
>)
    ensures
        match r {
            Ok(v) => spec_relation(Operator::Greater, a@, b@, context@.facts) == Ok::<
                ValueView,
                Failure,
            >(v@),
            Err(e) => spec_relation(Operator::Greater, a@, b@, context@.facts) == Err::<
                ValueView,
                Failure,
            >(e.failure()),
        },
{
    relation(Operator::Greater, a, b, context)
}

/// `a >= b`; see `spec_relation`.
pub fn handle_greater_than_or_equal_operator(a: &PomlValue, b: &PomlValue, context: &RenderContext) -> (r:
    Result<PomlValue, Error>)
    ensures
        match r {
            Ok(v) => spec_relation(Operator::GreaterEqual, a@, b@, context@.facts) == Ok::<
                ValueView,
                Failure,
            >(v@),
            Err(e) => spec_relation(Operator::GreaterEqual, a@, b@, context@.facts) == Err::<
                ValueView,
                Failure,
            >(e.failure()),
        },
{
    relation(Operator::GreaterEqual, a, b, context)
}

/// `a in b`; see `spec_in`.
pub fn handle_in_operator(a: &PomlValue, b: &PomlValue) -> (r: Result<PomlValue, Error>)
    ensures
        match r {
            Ok(v) => spec_in(a@, b@) == Ok::<ValueView, Failure>(v@),
            Err(e) => spec_in(a@, b@) == Err::<ValueView, Failure>(e.failure()),
        },
{
    match b {
        PomlValue::Array(v) => {
            if let Some(idx) = cast_as_i64(a) {
                Ok(PomlValue::Bool(0 <= idx && (idx as u64) < (v.len() as u64)))
            } else {
                reject(
                    "Left-hand side of `in` must be an integer index when right-hand side is an array",
                )
            }
        },
        PomlValue::Object(v) => {
            if let PomlValue::String(key) = a {
                let found = find_entry(v, key.as_slice()).is_some();
                proof {
                    lemma_object_view(*v);
                }
                Ok(PomlValue::Bool(found))
            } else {
                reject(
                    "Left-hand side of `in` must be a string key when right-hand side is an object",
                )
            }
        },
        _ => reject("Right-hand side of 'in' must be an array or an object"),
    }
}

/// The value of `a op b`; see `apply_binary`.
pub fn apply_binary_operator(op: Operator, a: &PomlValue, b: &PomlValue, context: &RenderContext) -> (r:
    Result<PomlValue, Error>)
    ensures
        match r {
            Ok(v) => apply_binary(op, a@, b@, context@.facts) == Ok::<ValueView, Failure>(v@),
            Err(e) => apply_binary(op, a@, b@, context@.facts) == Err::<ValueView, Failure>(
                e.failure(),
            ),
        },
{
    match op {
        Operator::Plus => handle_plus_operator(a, b, context),
        Operator::Minus => handle_minus_operator(a, b, context),
        Operator::Times => handle_times_operator(a, b, context),
        Operator::Divide => handle_divide_operator(a, b, context),
        Operator::Modulo => handle_mod_operator(a, b),
        Operator::Less => handle_less_than_operator(a, b, context),
        Operator::LessEqual => handle_less_than_or_equal_operator(a, b, context),
        Operator::Greater => handle_greater_than_operator(a, b, context),
        Operator::GreaterEqual => handle_greater_than_or_equal_operator(a, b, context),
        Operator::In => handle_in_operator(a, b),
        Operator::StrictEqual => Ok(PomlValue::Bool(values_match(a, b, true))),
        Operator::StrictNotEqual => Ok(PomlValue::Bool(!values_match(a, b, true))),
        Operator::And => Ok(PomlValue::Bool(!is_false_json_value(a) && !is_false_json_value(b))),
        Operator::Or => Ok(PomlValue::Bool(!is_false_json_value(a) || !is_false_json_value(b))),
        _ => reject("Not a binary operator."),
    }
}

// ---------------------------------------------------------------------------
// The reduction passes
// ---------------------------------------------------------------------------

fn clone_part(part: &ExpressionPart) -> (r: ExpressionPart)
    ensures
        r@ == part@,
{
    match part {
        ExpressionPart::Value(v) => ExpressionPart::Value(clone_value(v)),
        ExpressionPart::Operator(op) => ExpressionPart::Operator(*op),
    }
}

/// One pass for the binary operators of a level; see `reduce_binary`.
#[verifier::loop_isolation(false)]
pub fn process_binary_operators(
    parts: &Vec<ExpressionPart>,
    level: Level,
    context: &RenderContext,
) -> (r: Result<Vec<ExpressionPart>, Error>)
    ensures
        match r {
            Ok(out) => reduce_binary(
                parts_view(parts@),
                0,
                Seq::empty(),
                level,
                context@.facts,
            ) == Ok::<Seq<PartView>, Failure>(parts_view(out@)),
            Err(e) => reduce_binary(parts_view(parts@), 0, Seq::empty(), level, context@.facts)
                == Err::<Seq<PartView>, Failure>(e.failure()),
        },
{
    let ghost model = parts_view(parts@);
    let ghost facts = context@.facts;
    let mut new_parts: Vec<ExpressionPart> = Vec::new();
    let mut i: usize = 0;
    proof {
        assert(parts_view(new_parts@) =~= Seq::empty());
    }
    while i < parts.len()
        invariant
            i <= parts.len(),
            reduce_binary(model, 0, Seq::empty(), level, facts) == reduce_binary(
                model,
                i as int,
                parts_view(new_parts@),
                level,
                facts,
            ),
        decreases parts.len() - i,
    {
        let ghost acc = parts_view(new_parts@);
        let reducible = match &parts[i] {
            ExpressionPart::Operator(op) => in_level(level, *op),
            _ => false,
        };
        if reducible {
            let op = match &parts[i] {
                ExpressionPart::Operator(op) => *op,
                _ => Operator::Unknown,
            };
            let a = match new_parts.pop() {
                Some(ExpressionPart::Value(a)) => a,
                _ => {
                    return reject("An operator appears without a value before it.");
                },
            };
            if i + 1 >= parts.len() {
                return reject("An operator appears without a value after it.");
            }
            let value = match &parts[i + 1] {
                ExpressionPart::Value(b) => apply_binary_operator(op, &a, b, context)?,
                _ => {
                    return reject("An operator appears without a value after it.");
                },
            };
            proof {
                assert(parts_view(new_parts@) =~= acc.drop_last());
            }
            new_parts.push(ExpressionPart::Value(value));
            proof {
                assert(parts_view(new_parts@) =~= acc.drop_last().push(PartView::Value(value@)));
            }
            i = i + 2;
        } else {
            new_parts.push(clone_part(&parts[i]));
            proof {
                assert(parts_view(new_parts@) =~= acc.push(model[i as int]));
            }
            i = i + 1;
        }
    }
    Ok(new_parts)
}

/// The pass for `&&`.
pub fn process_and_operators(parts: &Vec<ExpressionPart>, context: &RenderContext) -> (r: Result<
    Vec<ExpressionPart>,
    Error,
>)
    ensures
        match r {
            Ok(out) => reduce_binary(
                parts_view(parts@),
                0,
                Seq::empty(),
                Level::And,
                context@.facts,
            ) == Ok::<Seq<PartView>, Failure>(parts_view(out@)),
            Err(e) => reduce_binary(
                parts_view(parts@),
                0,
                Seq::empty(),
                Level::And,
                context@.facts,
            ) == Err::<Seq<PartView>, Failure>(e.failure()),
        },
{
    process_binary_operators(parts, Level::And, context)
}

/// The pass for `||`.
pub fn process_or_operators(parts: &Vec<ExpressionPart>, context: &RenderContext) -> (r: Result<
    Vec<ExpressionPart>,
    Error,
>)
    ensures
        match r {
            Ok(out) => reduce_binary(
                parts_view(parts@),
                0,
                Seq::empty(),
                Level::Or,
                context@.facts,
            ) == Ok::<Seq<PartView>, Failure>(parts_view(out@)),
            Err(e) => reduce_binary(parts_view(parts@), 0, Seq::empty(), Level::Or, context@.facts)
                == Err::<Seq<PartView>, Failure>(e.failure()),
        },
{
    process_binary_operators(parts, Level::Or, context)
}

/// The pass for `+` and `-`.
pub fn process_plus_and_minus_operators(parts: &Vec<ExpressionPart>, context: &RenderContext) -> (r:
    Result<Vec<ExpressionPart>, Error>)
    ensures
        match r {
            Ok(out) => reduce_binary(
                parts_view(parts@),
                0,
                Seq::empty(),
                Level::Sum,
                context@.facts,
            ) == Ok::<Seq<PartView>, Failure>(parts_view(out@)),
            Err(e) => reduce_binary(
                parts_view(parts@),
                0,
                Seq::empty(),
                Level::Sum,
                context@.facts,
            ) == Err::<Seq<PartView>, Failure>(e.failure()),
        },
{
    process_binary_operators(parts, Level::Sum, context)
}

/// The pass for `*`, `/` and `%`.
pub fn process_times_divide_mod_operators(
    parts: &Vec<ExpressionPart>,
    context: &RenderContext,
) -> (r: Result<Vec<ExpressionPart>, Error>)
    ensures
        match r {
            Ok(out) => reduce_binary(
                parts_view(parts@),
                0,
                Seq::empty(),
                Level::Product,
                context@.facts,
            ) == Ok::<Seq<PartView>, Failure>(parts_view(out@)),
            Err(e) => reduce_binary(
                parts_view(parts@),
                0,
                Seq::empty(),
                Level::Product,
                context@.facts,
            ) == Err::<Seq<PartView>, Failure>(e.failure()),
        },
{
    process_binary_operators(parts, Level::Product, context)
}

/// The pass for `<`, `<=`, `>`, `>=` and `in`.
pub fn process_rational_operators(parts: &Vec<ExpressionPart>, context: &RenderContext) -> (r:
    Result<Vec<ExpressionPart>, Error>)
    ensures
        match r {
            Ok(out) => reduce_binary(
                parts_view(parts@),
                0,
                Seq::empty(),
                Level::Relational,
                context@.facts,
            ) == Ok::<Seq<PartView>, Failure>(parts_view(out@)),
            Err(e) => reduce_binary(
                parts_view(parts@),
                0,
                Seq::empty(),
                Level::Relational,
                context@.facts,
            ) == Err::<Seq<PartView>, Failure>(e.failure()),
        },
{
    process_binary_operators(parts, Level::Relational, context)
}

/// The pass for `===` and `!==`.
pub fn process_equality_operators(parts: &Vec<ExpressionPart>, context: &RenderContext) -> (r:
    Result<Vec<ExpressionPart>, Error>)
    ensures
        match r {
            Ok(out) => reduce_binary(
                parts_view(parts@),
                0,
                Seq::empty(),
                Level::Equality,
                context@.facts,
            ) == Ok::<Seq<PartView>, Failure>(parts_view(out@)),
            Err(e) => reduce_binary(
                parts_view(parts@),
                0,
                Seq::empty(),
                Level::Equality,
                context@.facts,
            ) == Err::<Seq<PartView>, Failure>(e.failure()),
        },
{
    process_binary_operators(parts, Level::Equality, context)
}

/// The pass for `!`; see `reduce_not`.
#[verifier::loop_isolation(false)]
pub fn process_not_operators(parts: &Vec<ExpressionPart>) -> (r: Result<Vec<ExpressionPart>, Error>)
    ensures
        match r {
            Ok(out) => reduce_not(parts_view(parts@), 0, Seq::empty()) == Ok::<
                Seq<PartView>,
                Failure,
            >(parts_view(out@)),
            Err(e) => reduce_not(parts_view(parts@), 0, Seq::empty()) == Err::<
                Seq<PartView>,
                Failure,
            >(e.failure()),
        },
{
    let ghost model = parts_view(parts@);
    let mut new_parts: Vec<ExpressionPart> = Vec::new();
    let mut i: usize = 0;
    proof {
        assert(parts_view(new_parts@) =~= Seq::empty());
    }
    while i < parts.len()
        invariant
            i <= parts.len(),
            reduce_not(model, 0, Seq::empty()) == reduce_not(
                model,
                i as int,
                parts_view(new_parts@),
            ),
        decreases parts.len() - i,
    {
        let ghost acc = parts_view(new_parts@);
        let negation = match &parts[i] {
            ExpressionPart::Operator(Operator::Not) => true,
            _ => false,
        };
        if negation {
            if i + 1 >= parts.len() {
                return reject("Operator ! appears without a value after it.");
            }
            let value = match &parts[i + 1] {
                ExpressionPart::Value(b) => is_false_json_value(b),
                _ => {
                    return reject("Operator ! appears without a value after it.");
                },
            };
            new_parts.push(ExpressionPart::Value(PomlValue::Bool(value)));
            proof {
                assert(parts_view(new_parts@) =~= acc.push(
                    PartView::Value(ValueView::Bool(value)),
                ));
            }
            i = i + 2;
        } else {
            new_parts.push(clone_part(&parts[i]));
            proof {
                assert(parts_view(new_parts@) =~= acc.push(model[i as int]));
            }
            i = i + 1;
        }
    }
    Ok(new_parts)
}

/// The parts in reverse order.
fn reverse_parts(parts: Vec<ExpressionPart>) -> (r: Vec<ExpressionPart>)
    ensures
        parts_view(r@) == parts_view(parts@).reverse(),
{
    let mut parts = parts;
    let ghost model = parts_view(parts@);
    let mut out: Vec<ExpressionPart> = Vec::new();
    while parts.len() > 0
        invariant
            parts_view(parts@) == model.subrange(0, parts.len() as int),
            parts.len() <= model.len(),
            out.len() == model.len() - parts.len(),
            forall|k: int| 0 <= k < out.len() ==> (#[trigger] out@[k])@ == model[model.len() - 1 - k],
        decreases parts.len(),
    {
        let ghost before = parts_view(parts@);
        let last = parts.pop().unwrap();
        proof {
            assert(last@ == before[before.len() - 1]);
            assert(parts_view(parts@) =~= model.subrange(0, parts.len() as int));
        }
        out.push(last);
    }
    proof {
        assert(parts_view(out@) =~= model.reverse());
    }
    out
}

/// The pass for `? :`; see `ternary_pass`.
#[verifier::loop_isolation(false)]
pub fn process_ternary_operators(parts: &Vec<ExpressionPart>) -> (r: Result<
    Vec<ExpressionPart>,
    Error,
>)
    ensures
        match r {
            Ok(out) => ternary_pass(parts_view(parts@)) == Ok::<Seq<PartView>, Failure>(
                parts_view(out@),
            ),
            Err(e) => ternary_pass(parts_view(parts@)) == Err::<Seq<PartView>, Failure>(
                e.failure(),
            ),
        },
{
    let ghost model = parts_view(parts@);
    let mut contain_ternary = false;
    let mut k: usize = 0;
    while k < parts.len()
        invariant
            k <= parts.len(),
            contain_ternary == exists|j: int|
                0 <= j < k && #[trigger] model[j] == PartView::Operator(Operator::Question),
        decreases parts.len() - k,
    {
        match &parts[k] {
            ExpressionPart::Operator(Operator::Question) => {
                contain_ternary = true;
                proof {
                    assert(model[k as int] == PartView::Operator(Operator::Question));
                }
            },
            _ => {},
        }
        k = k + 1;
    }
    if !contain_ternary {
        let mut copy: Vec<ExpressionPart> = Vec::new();
        let mut c: usize = 0;
        while c < parts.len()
            invariant
                c <= parts.len(),
                copy.len() == c,
                forall|j: int| 0 <= j < c ==> (#[trigger] copy@[j])@ == model[j],
            decreases parts.len() - c,
        {
            copy.push(clone_part(&parts[c]));
            c = c + 1;
        }
        proof {
            assert(parts_view(copy@) =~= model);
        }
        return Ok(copy);
    }
    let mut new_parts: Vec<ExpressionPart> = Vec::new();
    let mut i_rev: usize = 0;
    proof {
        assert(parts_view(new_parts@) =~= Seq::empty());
    }
    while i_rev < parts.len()
        invariant
            i_rev <= parts.len(),
            reduce_ternary(model, 0, Seq::empty()) == reduce_ternary(
                model,
                i_rev as int,
                parts_view(new_parts@),
            ),
        decreases parts.len() - i_rev,
    {
        let ghost acc = parts_view(new_parts@);
        let i = parts.len() - i_rev - 1;
        let question = match &parts[i] {
            ExpressionPart::Operator(Operator::Question) => true,
            _ => false,
        };
        let colon = match &parts[i] {
            ExpressionPart::Operator(Operator::Colon) => true,
            _ => false,
        };
        if question {
            if i == 0 {
                return reject("Ternary operator ? appears without a value before it.");
            }
            let true_branch_value = match new_parts.pop() {
                Some(ExpressionPart::Value(v)) => v,
                _ => {
                    return reject("Ternary operator ? appears without a value after it.");
                },
            };
            match new_parts.pop() {
                Some(ExpressionPart::Operator(Operator::Colon)) => {},
                _ => {
                    return reject("Ternary operator ? appears without corresponding : operator.");
                },
            }
            let false_branch_value = match new_parts.pop() {
                Some(ExpressionPart::Value(v)) => v,
                _ => {
                    return reject(
                        "Ternary operator ?: appears without the false branch value after it.",
                    );
                },
            };
            let chosen = match &parts[i - 1] {
                ExpressionPart::Value(cond_value) => {
                    if is_false_json_value(cond_value) {
                        false_branch_value
                    } else {
                        true_branch_value
                    }
                },
                _ => {
                    return reject("Ternary operator ? appears without a value before it.");
                },
            };
            proof {
                assert(parts_view(new_parts@) =~= acc.subrange(0, acc.len() - 3));
            }
            new_parts.push(ExpressionPart::Value(chosen));
            proof {
                assert(parts_view(new_parts@) =~= acc.subrange(0, acc.len() - 3).push(
                    PartView::Value(chosen@),
                ));
            }
            i_rev = i_rev + 2;
        } else if colon {
            let has_value = new_parts.len() > 0 && match &new_parts[new_parts.len() - 1] {
                ExpressionPart::Value(_) => true,
                _ => false,
            };
            if !has_value {
                return reject("Ternary operator : appears without a value after it.");
            }
            new_parts.push(ExpressionPart::Operator(Operator::Colon));
            proof {
                assert(parts_view(new_parts@) =~= acc.push(model[i as int]));
            }
            i_rev = i_rev + 1;
        } else {
            new_parts.push(clone_part(&parts[i]));
            proof {
                assert(parts_view(new_parts@) =~= acc.push(model[i as int]));
            }
            i_rev = i_rev + 1;
        }
    }
    Ok(reverse_parts(new_parts))
}

/// Reduces a flat list of parts to its value; see `reduce_all`.
pub fn reduce_parts(parts: &Vec<ExpressionPart>, context: &RenderContext) -> (r: Result<
    PomlValue,
    Error,
>)
    ensures
        match r {
            Ok(v) => reduce_all(parts_view(parts@), context@.facts) == Ok::<ValueView, Failure>(
                v@,
            ),
            Err(e) => reduce_all(parts_view(parts@), context@.facts) == Err::<ValueView, Failure>(
                e.failure(),
            ),
        },
{
    let negated = process_not_operators(parts)?;
    let products = process_times_divide_mod_operators(&negated, context)?;
    let sums = process_plus_and_minus_operators(&products, context)?;
    let relations = process_rational_operators(&sums, context)?;
    let equalities = process_equality_operators(&relations, context)?;
    let conjunctions = process_and_operators(&equalities, context)?;
    let disjunctions = process_or_operators(&conjunctions, context)?;
    let mut conditionals = process_ternary_operators(&disjunctions)?;
    if conditionals.len() > 1 {
        return reject("Some operators remained unprocessed!");
    }
    match conditionals.pop() {
        Some(ExpressionPart::Value(v)) => Ok(v),
        _ => reject("No value found in the expression"),
    }
}

// ---------------------------------------------------------------------------
// The model: reading values from tokens
// ---------------------------------------------------------------------------

/// The value of a reference: the keywords `true`, `false` and `null`, or
/// the binding of the name; a name that no scope binds is null.
pub open spec fn reference_value(name: Seq<u8>, ctx: ContextView) -> ValueView {
    if name == text("true") {
        ValueView::Bool(true)
    } else if name == text("false") {
        ValueView::Bool(false)
    } else if name == text("null") {
        ValueView::Null
    } else {
        match ctx.get(name) {
            Some(v) => v,
            None => ValueView::Null,
        }
    }
}

/// The value of a number literal: an integer where it holds no dot, and
/// else the double that the caller reads from it.
pub open spec fn number_value(literal: Seq<u8>, facts: Seq<FactView>) -> Result<ValueView, Failure> {
    if !literal.contains('.' as u8) {
        match parse_int(literal) {
            Some(i) => Ok(ValueView::Int(i)),
            None => rejected(),
        }
    } else {
        float_result(facts, RequestView::ParseFloat(literal))
    }
}

/// The value of a string literal: what stands between its quotes.
pub open spec fn string_value(literal: Seq<u8>) -> Result<ValueView, Failure> {
    if literal.len() >= 2 {
        Ok(ValueView::String(literal.subrange(1, literal.len() - 1)))
    } else {
        rejected()
    }
}

/// The field of a value: a field that an object lacks is null; null and
/// every value that is no object are rejected.
pub open spec fn field_of(base: ValueView, key: Seq<u8>) -> Result<ValueView, Failure> {
    match base {
        ValueView::Object(entries) => match lookup_entry(entries, key) {
            Some(v) => Ok(v),
            None => Ok(ValueView::Null),
        },
        _ => rejected(),
    }
}

/// `base[index]`: an index that is an integer, not negative, picks from an
/// array; an index that is a string picks a field.
pub open spec fn index_of(base: ValueView, index: ValueView) -> Result<ValueView, Failure> {
    match index {
        ValueView::Int(i) => match base {
            ValueView::Array(items) => if 0 <= i < items.len() {
                Ok(items[i as int])
            } else {
                rejected()
            },
            _ => rejected(),
        },
        ValueView::String(key) => field_of(base, key),
        _ => rejected(),
    }
}

/// The value of the expression that starts at `start`, and the position of
/// the token that ends it: `]`, `}`, `,`, `)` or the end of the tokens.
pub open spec fn eval_value(tokens: Seq<TokenView>, start: int, ctx: ContextView) -> Result<
    (ValueView, int),
    Failure,
>
    decreases tokens.len() - start, 3int,
{
    match collect_parts(tokens, start, Seq::empty(), ctx) {
        Err(f) => Err(f),
        Ok((parts, pos)) => match reduce_all(parts, ctx.facts) {
            Err(f) => Err(f),
            Ok(v) => Ok((v, pos)),
        },
    }
}

/// `acc` followed by the values and operators from `pos` up to the token
/// that ends the expression, and the position of that token.
pub open spec fn collect_parts(
    tokens: Seq<TokenView>,
    pos: int,
    acc: Seq<PartView>,
    ctx: ContextView,
) -> Result<(Seq<PartView>, int), Failure>
    decreases tokens.len() - pos, 2int,
{
    if !(0 <= pos < tokens.len()) {
        Ok((acc, pos))
    } else {
        match tokens[pos] {
            TokenView::RightBracket => Ok((acc, pos)),
            TokenView::RightCurly => Ok((acc, pos)),
            TokenView::Comma => Ok((acc, pos)),
            TokenView::RightParenthesis => Ok((acc, pos)),
            TokenView::LeftParenthesis => match eval_value(tokens, pos + 1, ctx) {
                Err(f) => Err(f),
                Ok((v, next)) => if pos < next < tokens.len() && tokens[next]
                    == TokenView::RightParenthesis {
                    collect_parts(tokens, next + 1, acc.push(PartView::Value(v)), ctx)
                } else {
                    rejected()
                },
            },
            TokenView::ArithOp(name) => collect_parts(
                tokens,
                pos + 1,
                acc.push(PartView::Operator(operator_of(name))),
                ctx,
            ),
            TokenView::Exclamation => collect_parts(
                tokens,
                pos + 1,
                acc.push(PartView::Operator(Operator::Not)),
                ctx,
            ),
            TokenView::QuestionMark => collect_parts(
                tokens,
                pos + 1,
                acc.push(PartView::Operator(Operator::Question)),
                ctx,
            ),
            TokenView::Colon => collect_parts(
                tokens,
                pos + 1,
                acc.push(PartView::Operator(Operator::Colon)),
                ctx,
            ),
            TokenView::LeftBracket => match next_array(tokens, pos, ctx) {
                Err(f) => Err(f),
                Ok((v, next)) => if pos < next <= tokens.len() {
                    collect_parts(tokens, next, acc.push(PartView::Value(v)), ctx)
                } else {
                    rejected()
                },
            },
            TokenView::LeftCurly => match next_object(tokens, pos, ctx) {
                Err(f) => Err(f),
                Ok((v, next)) => if pos < next <= tokens.len() {
                    collect_parts(tokens, next, acc.push(PartView::Value(v)), ctx)
                } else {
                    rejected()
                },
            },
            TokenView::Dot => rejected(),
            _ => match next_value(tokens, pos, ctx) {
                Err(f) => Err(f),
                Ok((v, next)) => if pos < next <= tokens.len() {
                    collect_parts(tokens, next, acc.push(PartView::Value(v)), ctx)
                } else {
                    rejected()
                },
            },
        }
    }
}

/// The value that starts at `pos`, and the position after it: a reference
/// with the fields and indexes that follow it, a number or a string.
pub open spec fn next_value(tokens: Seq<TokenView>, pos: int, ctx: ContextView) -> Result<
    (ValueView, int),
    Failure,
>
    decreases tokens.len() - pos, 1int,
{
    if !(0 <= pos < tokens.len()) {
        rejected()
    } else {
        match tokens[pos] {
            TokenView::Ref(name) => access_chain(tokens, pos + 1, reference_value(name, ctx), ctx),
            TokenView::Number(literal) => match number_value(literal, ctx.facts) {
                Err(f) => Err(f),
                Ok(v) => Ok((v, pos + 1)),
            },
            TokenView::String(literal) => match string_value(literal) {
                Err(f) => Err(f),
                Ok(v) => Ok((v, pos + 1)),
            },
            _ => rejected(),
        }
    }
}

/// The value that the accesses from `pos` on pick from `base`, `.field` and
/// `[index]` in any number, and the position after the last of them.
pub open spec fn access_chain(
    tokens: Seq<TokenView>,
    pos: int,
    base: ValueView,
    ctx: ContextView,
) -> Result<(ValueView, int), Failure>
    decreases tokens.len() - pos, 0int,
{
    if !(0 <= pos < tokens.len()) {
        Ok((base, pos))
    } else {
        match tokens[pos] {
            TokenView::Dot => if pos + 1 < tokens.len() && tokens[pos + 1] is Ref {
                match field_of(base, tokens[pos + 1]->Ref_0) {
                    Err(f) => Err(f),
                    Ok(v) => access_chain(tokens, pos + 2, v, ctx),
                }
            } else {
                rejected()
            },
            TokenView::LeftBracket => match eval_value(tokens, pos + 1, ctx) {
                Err(f) => Err(f),
                Ok((index, next)) => if pos < next < tokens.len() && tokens[next]
                    == TokenView::RightBracket {
                    match index_of(base, index) {
                        Err(f) => Err(f),
                        Ok(v) => access_chain(tokens, next + 1, v, ctx),
                    }
                } else {
                    rejected()
                },
            },
            _ => Ok((base, pos)),
        }
    }
}

/// The array literal that opens at `start`, and the position after its `]`.
pub open spec fn next_array(tokens: Seq<TokenView>, start: int, ctx: ContextView) -> Result<
    (ValueView, int),
    Failure,
>
    decreases tokens.len() - start, 1int,
{
    if !(0 <= start < tokens.len()) {
        rejected()
    } else {
        array_items(tokens, start + 1, Seq::empty(), ctx)
    }
}

/// The items of an array literal from `pos` on, after the items `acc`:
/// expressions with a comma between them, and an optional one before the
/// `]`.
pub open spec fn array_items(
    tokens: Seq<TokenView>,
    pos: int,
    acc: Seq<ValueView>,
    ctx: ContextView,
) -> Result<(ValueView, int), Failure>
    decreases tokens.len() - pos, 4int,
{
    if !(0 <= pos < tokens.len()) {
        rejected()
    } else if tokens[pos] == TokenView::RightBracket {
        Ok((ValueView::Array(acc), pos + 1))
    } else {
        match eval_value(tokens, pos, ctx) {
            Err(f) => Err(f),
            Ok((item, next)) => if !(pos < next < tokens.len()) {
                rejected()
            } else if tokens[next] == TokenView::Comma {
                array_items(tokens, next + 1, acc.push(item), ctx)
            } else if tokens[next] == TokenView::RightBracket {
                array_items(tokens, next, acc.push(item), ctx)
            } else {
                rejected()
            },
        }
    }
}

/// The object literal that opens at `start`, and the position after its `}`.
pub open spec fn next_object(tokens: Seq<TokenView>, start: int, ctx: ContextView) -> Result<
    (ValueView, int),
    Failure,
>
    decreases tokens.len() - start, 1int,
{
    if !(0 <= start < tokens.len()) {
        rejected()
    } else {
        object_entries(tokens, start + 1, Seq::empty(), ctx)
    }
}

/// The key that a token writes in an object literal: the name of a
/// reference, or a string literal as it is written.
pub open spec fn object_key(token: TokenView) -> Option<Seq<u8>> {
    match token {
        TokenView::Ref(name) => Some(name),
        TokenView::String(literal) => Some(literal),
        _ => None,
    }
}

/// The entries of an object literal from `pos` on, after the entries `acc`:
/// `key : expression` with a comma between them, and an optional one before
/// the `}`. A key that is written twice keeps its last value.
pub open spec fn object_entries(
    tokens: Seq<TokenView>,
    pos: int,
    acc: Entries,
    ctx: ContextView,
) -> Result<(ValueView, int), Failure>
    decreases tokens.len() - pos, 4int,
{
    if !(0 <= pos < tokens.len()) {
        rejected()
    } else if tokens[pos] == TokenView::RightCurly {
        Ok((ValueView::Object(acc), pos + 1))
    } else {
        match object_key(tokens[pos]) {
            None => rejected(),
            Some(key) => if !(pos + 1 < tokens.len()) || tokens[pos + 1] != TokenView::Colon {
                rejected()
            } else {
                match eval_value(tokens, pos + 2, ctx) {
                    Err(f) => Err(f),
                    Ok((v, next)) => if !(pos < next < tokens.len()) {
                        rejected()
                    } else if tokens[next] == TokenView::Comma {
                        object_entries(tokens, next + 1, insert_entry(acc, key, v), ctx)
                    } else if tokens[next] == TokenView::RightCurly {
                        object_entries(tokens, next, insert_entry(acc, key, v), ctx)
                    } else {
                        rejected()
                    },
                }
            },
        }
    }
}

/// The value of a whole list of tokens: the expression must end where the
/// tokens end.
pub open spec fn evaluate_tokens(tokens: Seq<TokenView>, ctx: ContextView) -> Result<
    ValueView,
    Failure,
> {
    match eval_value(tokens, 0, ctx) {
        Err(f) => Err(f),
        Ok((v, next)) => if next == tokens.len() {
            Ok(v)
        } else {
            rejected()
        },
    }
}

// ---------------------------------------------------------------------------
// Reading values from tokens
// ---------------------------------------------------------------------------

/// Evaluates a whole list of tokens; see `evaluate_tokens`.
pub fn evaluate_expression_tokens(tokens: &[ExpressionToken], context: &RenderContext) -> (r:
    Result<PomlValue, Error>)
    ensures
        match r {
            Ok(v) => evaluate_tokens(tokens_view(tokens@), context@) == Ok::<ValueView, Failure>(
                v@,
            ),
            Err(e) => evaluate_tokens(tokens_view(tokens@), context@) == Err::<
                ValueView,
                Failure,
            >(e.failure()),
        },
{
    let (value, next_pos) = evaluate_expression_value(tokens, 0, context)?;
    if next_pos == tokens.len() {
        Ok(value)
    } else {
        reject("The expression goes on after its end.")
    }
}

/// Evaluates the expression that starts at `start_pos`; see `eval_value`.
#[verifier::loop_isolation(false)]
pub fn evaluate_expression_value(
    tokens: &[ExpressionToken],
    start_pos: usize,
    context: &RenderContext,
) -> (r: Result<(PomlValue, usize), Error>)
    ensures
        match r {
            Ok((v, next)) => eval_value(tokens_view(tokens@), start_pos as int, context@) == Ok::<
                (ValueView, int),
                Failure,
            >((v@, next as int)) && (next as int <= tokens@.len() || next == start_pos),
            Err(e) => eval_value(tokens_view(tokens@), start_pos as int, context@) == Err::<
                (ValueView, int),
                Failure,
            >(e.failure()),
        },
    decreases tokens@.len() - start_pos, 3int,
{
    let ghost tv = tokens_view(tokens@);
    let ghost ctx = context@;
    let mut pos = start_pos;
    let mut parts: Vec<ExpressionPart> = Vec::new();
    let mut ended = false;
    proof {
        assert(parts_view(parts@) =~= Seq::empty());
    }
    while pos < tokens.len() && !ended
        invariant
            start_pos <= pos,
            pos as int <= tokens@.len() || pos == start_pos,
            collect_parts(tv, start_pos as int, Seq::empty(), ctx) == collect_parts(
                tv,
                pos as int,
                parts_view(parts@),
                ctx,
            ),
            ended ==> pos < tokens@.len() && collect_parts(tv, pos as int, parts_view(parts@), ctx)
                == Ok::<(Seq<PartView>, int), Failure>((parts_view(parts@), pos as int)),
        decreases tokens@.len() - pos + (if ended { 0int } else { 1int }),
    {
        let ghost acc = parts_view(parts@);
        let token = tokens[pos];
        assert(tv[pos as int] == token@);
        match token {
            ExpressionToken::RightBracket
            | ExpressionToken::RightCurly
            | ExpressionToken::Comma
            | ExpressionToken::RightParenthesis => {
                ended = true;
            },
            ExpressionToken::LeftParenthesis => {
                let (value, new_pos) = evaluate_expression_value(tokens, pos + 1, context)?;
                if new_pos <= pos || new_pos >= tokens.len() {
                    return reject("Not paired right parenthesis for a left parenthesis");
                }
                assert(tv[new_pos as int] == tokens@[new_pos as int]@);
                match tokens[new_pos] {
                    ExpressionToken::RightParenthesis => {},
                    _ => {
                        return reject("Not paired right parenthesis for a left parenthesis");
                    },
                }
                parts.push(ExpressionPart::Value(value));
                proof {
                    assert(parts_view(parts@) =~= acc.push(PartView::Value(value@)));
                }
                pos = new_pos + 1;
            },
            ExpressionToken::ArithOp(op_name) => {
                let op = classify_operator(op_name);
                parts.push(ExpressionPart::Operator(op));
                proof {
                    assert(parts_view(parts@) =~= acc.push(PartView::Operator(op)));
                }
                pos = pos + 1;
            },
            ExpressionToken::Exclamation => {
                parts.push(ExpressionPart::Operator(Operator::Not));
                proof {
                    assert(parts_view(parts@) =~= acc.push(PartView::Operator(Operator::Not)));
                }
                pos = pos + 1;
            },
            ExpressionToken::QuestionMark => {
                parts.push(ExpressionPart::Operator(Operator::Question));
                proof {
                    assert(parts_view(parts@) =~= acc.push(
                        PartView::Operator(Operator::Question),
                    ));
                }
                pos = pos + 1;
            },
            ExpressionToken::Colon => {
                parts.push(ExpressionPart::Operator(Operator::Colon));
                proof {
                    assert(parts_view(parts@) =~= acc.push(PartView::Operator(Operator::Colon)));
                }
                pos = pos + 1;
            },
            ExpressionToken::LeftBracket => {
                let (value, next_pos) = recognize_next_array(tokens, pos, context)?;
                if next_pos <= pos || next_pos > tokens.len() {
                    return reject("An array takes no token.");
                }
                parts.push(ExpressionPart::Value(value));
                proof {
                    assert(parts_view(parts@) =~= acc.push(PartView::Value(value@)));
                }
                pos = next_pos;
            },
            ExpressionToken::LeftCurly => {
                let (value, next_pos) = recognize_next_object(tokens, pos, context)?;
                if next_pos <= pos || next_pos > tokens.len() {
                    return reject("An object takes no token.");
                }
                parts.push(ExpressionPart::Value(value));
                proof {
                    assert(parts_view(parts@) =~= acc.push(PartView::Value(value@)));
                }
                pos = next_pos;
            },
            ExpressionToken::Dot => {
                return reject("A dot has to follow a reference.");
            },
            ExpressionToken::Ref(_) | ExpressionToken::Number(_) | ExpressionToken::String(_) => {
                let (value, next_pos) = recognize_next_value(tokens, pos, context)?;
                if next_pos <= pos || next_pos > tokens.len() {
                    return reject("A value takes no token.");
                }
                parts.push(ExpressionPart::Value(value));
                proof {
                    assert(parts_view(parts@) =~= acc.push(PartView::Value(value@)));
                }
                pos = next_pos;
            },
        }
    }
    let value = reduce_parts(&parts, context)?;
    Ok((value, pos))
}

/// Reads the array literal that opens at `start_pos`; see `next_array`.
#[verifier::loop_isolation(false)]
pub fn recognize_next_array(
    tokens: &[ExpressionToken],
    start_pos: usize,
    context: &RenderContext,
) -> (r: Result<(PomlValue, usize), Error>)
    ensures
        match r {
            Ok((v, next)) => next_array(tokens_view(tokens@), start_pos as int, context@) == Ok::<
                (ValueView, int),
                Failure,
            >((v@, next as int)) && start_pos < next <= tokens@.len(),
            Err(e) => next_array(tokens_view(tokens@), start_pos as int, context@) == Err::<
                (ValueView, int),
                Failure,
            >(e.failure()),
        },
    decreases tokens@.len() - start_pos, 1int,
{
    let ghost tv = tokens_view(tokens@);
    let ghost ctx = context@;
    if start_pos >= tokens.len() {
        return reject("Array value has not finished in the expression");
    }
    let mut pos = start_pos + 1;
    let mut array_value: Vec<PomlValue> = Vec::new();
    proof {
        assert(values_view(array_value@) =~= Seq::empty());
    }
    while pos < tokens.len()
        invariant
            start_pos < pos,
            next_array(tv, start_pos as int, ctx) == array_items(
                tv,
                pos as int,
                values_view(array_value@),
                ctx,
            ),
        decreases tokens@.len() - pos,
    {
        let ghost acc = values_view(array_value@);
        assert(tv[pos as int] == tokens@[pos as int]@);
        match tokens[pos] {
            ExpressionToken::RightBracket => {
                proof {
                    lemma_array_view(array_value);
                }
                return Ok((PomlValue::Array(array_value), pos + 1));
            },
            _ => {},
        }
        let (item_value, next_pos) = evaluate_expression_value(tokens, pos, context)?;
        if next_pos <= pos || next_pos >= tokens.len() {
            return reject("Array value has not finished in the expression");
        }
        array_value.push(item_value);
        proof {
            assert(values_view(array_value@) =~= acc.push(item_value@));
        }
        assert(tv[next_pos as int] == tokens@[next_pos as int]@);
        match tokens[next_pos] {
            ExpressionToken::Comma => {
                pos = next_pos + 1;
            },
            ExpressionToken::RightBracket => {
                pos = next_pos;
            },
            _ => {
                return reject("Expect comma ',' or right bracket ']' characters");
            },
        }
    }
    reject("Array value has not finished in the expression")
}

/// Reads the object literal that opens at `start_pos`; see `next_object`.
#[verifier::loop_isolation(false)]
pub fn recognize_next_object(
    tokens: &[ExpressionToken],
    start_pos: usize,
    context: &RenderContext,
) -> (r: Result<(PomlValue, usize), Error>)
    ensures
        match r {
            Ok((v, next)) => next_object(tokens_view(tokens@), start_pos as int, context@)
                == Ok::<(ValueView, int), Failure>((v@, next as int)) && start_pos < next
                <= tokens@.len(),
            Err(e) => next_object(tokens_view(tokens@), start_pos as int, context@) == Err::<
                (ValueView, int),
                Failure,
            >(e.failure()),
        },
    decreases tokens@.len() - start_pos, 1int,
{
    let ghost tv = tokens_view(tokens@);
    let ghost ctx = context@;
    if start_pos >= tokens.len() {
        return reject("Object value has not finished in the expression");
    }
    let mut pos = start_pos + 1;
    let mut object_value: Vec<(Vec<u8>, PomlValue)> = Vec::new();
    proof {
        assert(entries_view(object_value@) =~= Seq::empty());
    }
    while pos < tokens.len()
        invariant
            start_pos < pos,
            next_object(tv, start_pos as int, ctx) == object_entries(
                tv,
                pos as int,
                entries_view(object_value@),
                ctx,
            ),
        decreases tokens@.len() - pos,
    {
        let ghost acc = entries_view(object_value@);
        assert(tv[pos as int] == tokens@[pos as int]@);
        let key_bytes: &[u8] = match tokens[pos] {
            ExpressionToken::RightCurly => {
                proof {
                    lemma_object_view(object_value);
                }
                return Ok((PomlValue::Object(object_value), pos + 1));
            },
            ExpressionToken::Ref(ref_key_buf) => ref_key_buf,
            ExpressionToken::String(str_key_buf) => str_key_buf,
            _ => {
                return reject("Object key must be a string");
            },
        };
        if pos + 1 >= tokens.len() {
            return reject("Expect colon ':' after object key");
        }
        assert(tv[pos as int + 1] == tokens@[pos as int + 1]@);
        match tokens[pos + 1] {
            ExpressionToken::Colon => {},
            _ => {
                return reject("Expect colon ':' after object key");
            },
        }
        let (value_value, next_pos) = evaluate_expression_value(tokens, pos + 2, context)?;
        if next_pos <= pos || next_pos >= tokens.len() {
            return reject("Object value has not finished in the expression");
        }
        let key = copy_range(key_bytes, 0, key_bytes.len());
        proof {
            assert(key@ =~= key_bytes@);
        }
        put_entry(&mut object_value, key, value_value);
        assert(tv[next_pos as int] == tokens@[next_pos as int]@);
        match tokens[next_pos] {
            ExpressionToken::Comma => {
                pos = next_pos + 1;
            },
            ExpressionToken::RightCurly => {
                pos = next_pos;
            },
            _ => {
                return reject("Expect comma ',' or right curly '}' characters");
            },
        }
    }
    reject("Object value has not finished in the expression")
}

fn reject_bytes<T>(message: &Vec<u8>) -> (r: Result<T, Error>)
    ensures
        r is Err,
        r->Err_0.rejects(ErrorKind::EvaluatorError),
{
    Err(Error::new(ErrorKind::EvaluatorError, message.as_slice()))
}

/// The field of a value; see `field_of`. `path` is the access that is being
/// made, for the message of a failure.
fn field<'a>(base: &'a PomlValue, key: &[u8], missing: &'a PomlValue, path: &[u8]) -> (r: Result<
    &'a PomlValue,
    Error,
>)
    requires
        missing@ == ValueView::Null,
    ensures
        match r {
            Ok(v) => field_of(base@, key@) == Ok::<ValueView, Failure>(v@),
            Err(e) => field_of(base@, key@) == Err::<ValueView, Failure>(e.failure()),
        },
{
    match base {
        PomlValue::Object(obj) => {
            proof {
                lemma_object_view(*obj);
            }
            match find_entry(obj, key) {
                Some(v) => Ok(v),
                None => Ok(missing),
            }
        },
        PomlValue::Null => {
            let mut message: Vec<u8> = Vec::new();
            push_text(&mut message, "Tried to access field `");
            push_bytes(&mut message, key);
            push_text(&mut message, "` on undefined or null variable `");
            push_bytes(&mut message, path);
            push_text(&mut message, "`.");
            reject_bytes(&message)
        },
        _ => {
            let mut message: Vec<u8> = Vec::new();
            push_text(&mut message, "Variable `");
            push_bytes(&mut message, path);
            push_text(&mut message, "` is not an object and `");
            push_bytes(&mut message, key);
            push_text(&mut message, "` is not available on it");
            reject_bytes(&message)
        },
    }
}

/// `base[index]`; see `index_of`. `path` is the access that is being made,
/// for the message of a failure.
fn index<'a>(
    base: &'a PomlValue,
    index_value: &PomlValue,
    missing: &'a PomlValue,
    path: &[u8],
) -> (r: Result<&'a PomlValue, Error>)
    requires
        missing@ == ValueView::Null,
    ensures
        match r {
            Ok(v) => index_of(base@, index_value@) == Ok::<ValueView, Failure>(v@),
            Err(e) => index_of(base@, index_value@) == Err::<ValueView, Failure>(e.failure()),
        },
{
    match index_value {
        PomlValue::Int(i) => match base {
            PomlValue::Array(arr) => {
                proof {
                    lemma_array_view(*arr);
                }
                if *i < 0 {
                    reject("Number index should be an unsigned integer.")
                } else if (*i as u64) < (arr.len() as u64) {
                    Ok(&arr[*i as usize])
                } else {
                    let mut message: Vec<u8> = Vec::new();
                    push_text(&mut message, "Out of bound: index ");
                    push_bytes(&mut message, signed_decimal_bytes(*i).as_slice());
                    push_text(&mut message, ", array length: ");
                    push_decimal(&mut message, arr.len());
                    reject_bytes(&message)
                }
            },
            _ => reject("Number index can only be applied on array."),
        },
        PomlValue::String(key) => field(base, key.as_slice(), missing, path),
        _ => reject("Invalid index type."),
    }
}

/// Reads the value that starts at `pos`; see `next_value`.
#[verifier::loop_isolation(false)]
pub fn recognize_next_value(tokens: &[ExpressionToken], pos: usize, context: &RenderContext) -> (r:
    Result<(PomlValue, usize), Error>)
    ensures
        match r {
            Ok((v, next)) => next_value(tokens_view(tokens@), pos as int, context@) == Ok::<
                (ValueView, int),
                Failure,
            >((v@, next as int)) && pos < next <= tokens@.len(),
            Err(e) => next_value(tokens_view(tokens@), pos as int, context@) == Err::<
                (ValueView, int),
                Failure,
            >(e.failure()),
        },
    decreases tokens@.len() - pos, 1int,
{
    let ghost tv = tokens_view(tokens@);
    let ghost ctx = context@;
    if pos >= tokens.len() {
        return reject("Expect a value token, but not found");
    }
    assert(tv[pos as int] == tokens@[pos as int]@);
    match tokens[pos] {
        ExpressionToken::Ref(refc) => {
            let value = evaluate_reference(refc, context)?;
            let null_value = PomlValue::Null;
            let mut recognized_name = copy_range(refc, 0, refc.len());
            let mut value_ref: &PomlValue = &value;
            let mut cur = pos + 1;
            let mut done = false;
            while cur < tokens.len() && !done
                invariant
                    pos < cur <= tokens@.len(),
                    next_value(tv, pos as int, ctx) == access_chain(
                        tv,
                        cur as int,
                        value_ref@,
                        ctx,
                    ),
                    done ==> access_chain(tv, cur as int, value_ref@, ctx) == Ok::<
                        (ValueView, int),
                        Failure,
                    >((value_ref@, cur as int)),
                decreases tokens@.len() - cur + (if done { 0int } else { 1int }),
            {
                assert(tv[cur as int] == tokens@[cur as int]@);
                match tokens[cur] {
                    ExpressionToken::Dot => {
                        if cur + 1 >= tokens.len() {
                            return reject("No reference found after dot.");
                        }
                        assert(tv[cur as int + 1] == tokens@[cur as int + 1]@);
                        let key_bytes = match tokens[cur + 1] {
                            ExpressionToken::Ref(key_bytes) => key_bytes,
                            _ => {
                                return reject("No reference found after dot.");
                            },
                        };
                        push_text(&mut recognized_name, ".");
                        push_bytes(&mut recognized_name, key_bytes);
                        value_ref = field(
                            value_ref,
                            key_bytes,
                            &null_value,
                            recognized_name.as_slice(),
                        )?;
                        cur = cur + 2;
                    },
                    ExpressionToken::LeftBracket => {
                        let (index_value, new_pos) = evaluate_expression_value(
                            tokens,
                            cur + 1,
                            context,
                        )?;
                        if new_pos <= cur || new_pos >= tokens.len() {
                            return reject("Indexing is not finished with right bracket");
                        }
                        assert(tv[new_pos as int] == tokens@[new_pos as int]@);
                        match tokens[new_pos] {
                            ExpressionToken::RightBracket => {},
                            _ => {
                                return reject("Indexing is not finished with right bracket");
                            },
                        }
                        value_ref = index(
                            value_ref,
                            &index_value,
                            &null_value,
                            recognized_name.as_slice(),
                        )?;
                        push_text(&mut recognized_name, "[");
                        match &index_value {
                            PomlValue::Int(i) => {
                                push_bytes(
                                    &mut recognized_name,
                                    signed_decimal_bytes(*i).as_slice(),
                                );
                            },
                            PomlValue::String(key) => {
                                push_text(&mut recognized_name, "\"");
                                push_bytes(&mut recognized_name, key.as_slice());
                                push_text(&mut recognized_name, "\"");
                            },
                            _ => {},
                        }
                        push_text(&mut recognized_name, "]");
                        cur = new_pos + 1;
                    },
                    _ => {
                        done = true;
                    },
                }
            }
            Ok((clone_value(value_ref), cur))
        },
        ExpressionToken::Number(numc) => {
            let value = evaluate_number(numc, context)?;
            Ok((value, pos + 1))
        },
        ExpressionToken::String(strc) => {
            let str_val = evaluate_string(strc)?;
            Ok((str_val, pos + 1))
        },
        _ => reject("Expect a value token, but not found"),
    }
}

/// The value of a reference; see `reference_value`. It never fails.
pub fn evaluate_reference(refc: &[u8], context: &RenderContext) -> (r: Result<PomlValue, Error>)
    ensures
        r is Ok,
        r->Ok_0@ == reference_value(refc@, context@),
{
    if match_u8_str(refc, "true") {
        return Ok(PomlValue::Bool(true));
    }
    if match_u8_str(refc, "false") {
        return Ok(PomlValue::Bool(false));
    }
    if match_u8_str(refc, "null") {
        return Ok(PomlValue::Null);
    }
    match context.lookup(refc) {
        Some(r) => Ok(clone_value(r)),
        None => Ok(PomlValue::Null),
    }
}

/// The value of a number literal; see `number_value`.
pub fn evaluate_number(numc: &[u8], context: &RenderContext) -> (r: Result<PomlValue, Error>)
    ensures
        match r {
            Ok(v) => number_value(numc@, context@.facts) == Ok::<ValueView, Failure>(v@),
            Err(e) => number_value(numc@, context@.facts) == Err::<ValueView, Failure>(
                e.failure(),
            ),
        },
{
    let mut has_dot = false;
    let mut i: usize = 0;
    while i < numc.len()
        invariant
            i <= numc.len(),
            has_dot == numc@.subrange(0, i as int).contains('.' as u8),
        decreases numc.len() - i,
    {
        if numc[i] == '.' as u8 {
            has_dot = true;
        }
        proof {
            let before = numc@.subrange(0, i as int);
            let after = numc@.subrange(0, i as int + 1);
            assert(after =~= before.push(numc@[i as int]));
            if before.contains('.' as u8) {
                let k = choose|k: int| 0 <= k < before.len() && before[k] == '.' as u8;
                assert(after[k] == '.' as u8);
            }
            if numc@[i as int] == '.' as u8 {
                assert(after[i as int] == '.' as u8);
            }
            if after.contains('.' as u8) && !before.contains('.' as u8) {
                let k = choose|k: int| 0 <= k < after.len() && after[k] == '.' as u8;
                if k < i {
                    assert(before[k] == '.' as u8);
                }
            }
        }
        i = i + 1;
    }
    proof {
        assert(numc@.subrange(0, numc.len() as int) =~= numc@);
    }
    if !has_dot {
        match parse_int_bytes(numc) {
            Some(val) => Ok(PomlValue::Int(val)),
            None => Err(Error::about(ErrorKind::EvaluatorError, "Failed to parse number: ", numc, "")),
        }
    } else {
        let literal = copy_range(numc, 0, numc.len());
        proof {
            assert(literal@ =~= numc@);
        }
        float_value(context, Request::ParseFloat(literal))
    }
}

/// The value of a string literal; see `string_value`.
pub fn evaluate_string(strc: &[u8]) -> (r: Result<PomlValue, Error>)
    ensures
        match r {
            Ok(v) => string_value(strc@) == Ok::<ValueView, Failure>(v@),
            Err(e) => string_value(strc@) == Err::<ValueView, Failure>(e.failure()),
        },
{
    if strc.len() < 2 {
        return reject("Failed to decode string literal in expression.");
    }
    Ok(PomlValue::String(copy_range(strc, 1, strc.len() - 1)))
}

/// Whether a byte string spells a literal.
pub fn match_u8_str(src: &[u8], pat: &str) -> (r: bool)
    ensures
        r == (src@ == text(pat)),
{
    is_text(src, pat)
}

} // verus!
