//! Queries and the condition evaluator.
//!
//! A `Condition` is a boolean expression tree over `Expression`
//! leaves: a literal value, or a field looked up by identifier in the
//! document under test. Binary comparisons require both operands to
//! resolve to the same value variant; a variant mismatch fails with
//! `ExpressionTypeMismatch` naming both simple types. Ordering is
//! defined for the integer variants, `DateTime`, and `String` (by its
//! UTF-8 bytes); it fails with `InvalidExpressionType` on the other
//! variants, as does any comparison of composite values or of the
//! opaque `Float` bit patterns.
use crate::archive_parser::ParseError;
use crate::block_store::StoreError;
use crate::schema::{
    instance_view, instance_views, spec_simple_type, type_view, value_view, Document, FieldInstance, FieldType,
    FieldValue, SpecDocument, SpecFieldInstance, SpecFieldType, SpecValue,
};
use vstd::prelude::*;

verus! {

/// A query: the schema identifier of the collection to scan and the
/// condition a matching document must satisfy.
pub struct Query {
    /// The identifier of the collection to search.
    pub collection: u64,
    /// The condition a document must satisfy to match.
    pub condition: Condition,
}

/// A boolean expression tree over expressions.
pub enum Condition {
    Equal(Expression, Expression),
    NotEqual(Expression, Expression),
    GreaterThan(Expression, Expression),
    LessThan(Expression, Expression),
    Or(Box<Condition>, Box<Condition>),
    And(Box<Condition>, Box<Condition>),
    Not(Box<Condition>),
}

/// A leaf of a condition: a literal, or a field of the document under
/// test.
pub enum Expression {
    /// A literal value.
    Value(FieldValue),
    /// The value of the document's field with this identifier.
    Field(u16),
}

/// An error raised while executing a backend operation.
#[derive(Debug, PartialEq)]
pub enum OperationError {
    /// Decoding a stored block failed.
    ParseError(ParseError),
    /// The block store failed.
    IOError(StoreError),
    /// A query named a collection no schema is registered for.
    UnknownSchemaIdentifier,
    /// A condition named a field the document under test does not
    /// carry.
    UnknownFieldIdentifier,
    /// A binary comparison resolved to two different value variants,
    /// named by their simple types.
    ExpressionTypeMismatch { left: FieldType, right: FieldType },
    /// A comparison is not defined for the resolved value variant.
    InvalidExpressionType,
}

// ---------------------------------------------------------------------
// Mathematical counterparts
// ---------------------------------------------------------------------
/// The mathematical counterpart of `Condition`. The recursive
/// children are `Seq`-encoded: two for `Or` and `And`, one for `Not`.
#[verifier::ext_equal]
pub enum SpecCondition {
    Equal(SpecExpression, SpecExpression),
    NotEqual(SpecExpression, SpecExpression),
    GreaterThan(SpecExpression, SpecExpression),
    LessThan(SpecExpression, SpecExpression),
    Or(Seq<SpecCondition>),
    And(Seq<SpecCondition>),
    Not(Seq<SpecCondition>),
}

/// The mathematical counterpart of `Expression`.
#[verifier::ext_equal]
pub enum SpecExpression {
    Value(SpecValue),
    Field(u16),
}

/// The evaluator's errors, over mathematical values.
#[verifier::ext_equal]
pub enum SpecEvalError {
    UnknownFieldIdentifier,
    ExpressionTypeMismatch(SpecFieldType, SpecFieldType),
    InvalidExpressionType,
}

pub open spec fn expression_view(e: Expression) -> SpecExpression
    decreases e,
{
    match e {
        Expression::Value(v) => SpecExpression::Value(value_view(v)),
        Expression::Field(id) => SpecExpression::Field(id),
    }
}

pub open spec fn condition_view(c: Condition) -> SpecCondition
    decreases c,
{
    match c {
        Condition::Equal(l, r) => SpecCondition::Equal(expression_view(l), expression_view(r)),
        Condition::NotEqual(l, r) => SpecCondition::NotEqual(
            expression_view(l),
            expression_view(r),
        ),
        Condition::GreaterThan(l, r) => SpecCondition::GreaterThan(
            expression_view(l),
            expression_view(r),
        ),
        Condition::LessThan(l, r) => SpecCondition::LessThan(
            expression_view(l),
            expression_view(r),
        ),
        Condition::Or(l, r) => SpecCondition::Or(seq![condition_view(*l), condition_view(*r)]),
        Condition::And(l, r) => SpecCondition::And(seq![condition_view(*l), condition_view(*r)]),
        Condition::Not(c0) => SpecCondition::Not(seq![condition_view(*c0)]),
    }
}

impl View for Expression {
    type V = SpecExpression;

    open spec fn view(&self) -> SpecExpression {
        expression_view(*self)
    }
}

impl View for Condition {
    type V = SpecCondition;

    open spec fn view(&self) -> SpecCondition {
        condition_view(*self)
    }
}

/// How an executable evaluator error reads as a mathematical one.
pub open spec fn op_error_matches(e: OperationError, se: SpecEvalError) -> bool {
    match e {
        OperationError::UnknownFieldIdentifier => se is UnknownFieldIdentifier,
        OperationError::ExpressionTypeMismatch { left, right } => se
            == SpecEvalError::ExpressionTypeMismatch(type_view(left), type_view(right)),
        OperationError::InvalidExpressionType => se is InvalidExpressionType,
        _ => false,
    }
}

/// The value of the first field instance carrying `id`, if any.
pub open spec fn spec_find_instance(fields: Seq<SpecFieldInstance>, id: u16) -> Option<SpecValue>
    decreases fields,
{
    if fields.len() == 0 {
        None
    } else if fields[0].id == id {
        Some(fields[0].value)
    } else {
        spec_find_instance(fields.drop_first(), id)
    }
}

/// Resolves one expression against a document.
pub open spec fn spec_eval_expr(d: SpecDocument, e: SpecExpression) -> Result<
    SpecValue,
    SpecEvalError,
> {
    match e {
        SpecExpression::Value(v) => Ok(v),
        SpecExpression::Field(id) => match spec_find_instance(d.fields, id) {
            Some(v) => Ok(v),
            None => Err(SpecEvalError::UnknownFieldIdentifier),
        },
    }
}

/// Lexicographic order on byte strings.
pub open spec fn bytes_lt(a: Seq<u8>, b: Seq<u8>) -> bool
    decreases a.len(),
{
    if b.len() == 0 {
        false
    } else if a.len() == 0 {
        true
    } else if a[0] != b[0] {
        a[0] < b[0]
    } else {
        bytes_lt(a.drop_first(), b.drop_first())
    }
}

/// Equality of two resolved values: defined when both are the same
/// scalar variant; `Float` values compare by their bit patterns;
/// composite values do not compare.
pub open spec fn spec_eq_values(l: SpecValue, r: SpecValue) -> Result<bool, SpecEvalError> {
    match (l, r) {
        (SpecValue::Int(a), SpecValue::Int(b)) => Ok(a == b),
        (SpecValue::UInt(a), SpecValue::UInt(b)) => Ok(a == b),
        (SpecValue::Long(a), SpecValue::Long(b)) => Ok(a == b),
        (SpecValue::ULong(a), SpecValue::ULong(b)) => Ok(a == b),
        (SpecValue::Float(a), SpecValue::Float(b)) => Ok(a == b),
        (SpecValue::Bool(a), SpecValue::Bool(b)) => Ok(a == b),
        (SpecValue::DateTime(a), SpecValue::DateTime(b)) => Ok(a == b),
        (SpecValue::String(a), SpecValue::String(b)) => Ok(a == b),
        (SpecValue::ByteArray(a), SpecValue::ByteArray(b)) => Ok(a == b),
        (SpecValue::Array(_), SpecValue::Array(_)) => Err(SpecEvalError::InvalidExpressionType),
        (SpecValue::Object(_), SpecValue::Object(_)) => Err(SpecEvalError::InvalidExpressionType),
        (SpecValue::Enum(_, _), SpecValue::Enum(_, _)) => Err(
            SpecEvalError::InvalidExpressionType,
        ),
        _ => Err(SpecEvalError::ExpressionTypeMismatch(spec_simple_type(l), spec_simple_type(r))),
    }
}

/// Strict order of two resolved values: defined for the integer
/// variants, `DateTime`, and `String` (by its UTF-8 bytes); every
/// other same-variant pair fails `InvalidExpressionType`.
pub open spec fn spec_lt_values(l: SpecValue, r: SpecValue) -> Result<bool, SpecEvalError> {
    match (l, r) {
        (SpecValue::Int(a), SpecValue::Int(b)) => Ok(a < b),
        (SpecValue::UInt(a), SpecValue::UInt(b)) => Ok(a < b),
        (SpecValue::Long(a), SpecValue::Long(b)) => Ok(a < b),
        (SpecValue::ULong(a), SpecValue::ULong(b)) => Ok(a < b),
        (SpecValue::DateTime(a), SpecValue::DateTime(b)) => Ok(a < b),
        (SpecValue::String(a), SpecValue::String(b)) => Ok(
            bytes_lt(vstd::utf8::encode_utf8(a), vstd::utf8::encode_utf8(b)),
        ),
        (SpecValue::Float(_), SpecValue::Float(_)) => Err(SpecEvalError::InvalidExpressionType),
        (SpecValue::Bool(_), SpecValue::Bool(_)) => Err(SpecEvalError::InvalidExpressionType),
        (SpecValue::ByteArray(_), SpecValue::ByteArray(_)) => Err(
            SpecEvalError::InvalidExpressionType,
        ),
        (SpecValue::Array(_), SpecValue::Array(_)) => Err(SpecEvalError::InvalidExpressionType),
        (SpecValue::Object(_), SpecValue::Object(_)) => Err(SpecEvalError::InvalidExpressionType),
        (SpecValue::Enum(_, _), SpecValue::Enum(_, _)) => Err(
            SpecEvalError::InvalidExpressionType,
        ),
        _ => Err(SpecEvalError::ExpressionTypeMismatch(spec_simple_type(l), spec_simple_type(r))),
    }
}

/// Evaluates a condition against a document.
///
/// `Or` and `And` evaluate left to right and short-circuit; an error
/// in an unevaluated right operand is never raised.
pub open spec fn spec_evaluate(d: SpecDocument, c: SpecCondition) -> Result<bool, SpecEvalError>
    decreases c,
{
    match c {
        SpecCondition::Equal(l, r) => match (spec_eval_expr(d, l), spec_eval_expr(d, r)) {
            (Ok(lv), Ok(rv)) => spec_eq_values(lv, rv),
            (Err(e), _) => Err(e),
            (_, Err(e)) => Err(e),
        },
        SpecCondition::NotEqual(l, r) => match (spec_eval_expr(d, l), spec_eval_expr(d, r)) {
            (Ok(lv), Ok(rv)) => match spec_eq_values(lv, rv) {
                Ok(b) => Ok(!b),
                Err(e) => Err(e),
            },
            (Err(e), _) => Err(e),
            (_, Err(e)) => Err(e),
        },
        SpecCondition::GreaterThan(l, r) => match (spec_eval_expr(d, l), spec_eval_expr(d, r)) {
            (Ok(lv), Ok(rv)) => spec_lt_values(rv, lv),
            (Err(e), _) => Err(e),
            (_, Err(e)) => Err(e),
        },
        SpecCondition::LessThan(l, r) => match (spec_eval_expr(d, l), spec_eval_expr(d, r)) {
            (Ok(lv), Ok(rv)) => spec_lt_values(lv, rv),
            (Err(e), _) => Err(e),
            (_, Err(e)) => Err(e),
        },
        SpecCondition::Or(cs) => if cs.len() != 2 {
            Err(SpecEvalError::InvalidExpressionType)
        } else {
            match spec_evaluate(d, cs[0]) {
                Err(e) => Err(e),
                Ok(true) => Ok(true),
                Ok(false) => spec_evaluate(d, cs[1]),
            }
        },
        SpecCondition::And(cs) => if cs.len() != 2 {
            Err(SpecEvalError::InvalidExpressionType)
        } else {
            match spec_evaluate(d, cs[0]) {
                Err(e) => Err(e),
                Ok(false) => Ok(false),
                Ok(true) => spec_evaluate(d, cs[1]),
            }
        },
        SpecCondition::Not(cs) => if cs.len() != 1 {
            Err(SpecEvalError::InvalidExpressionType)
        } else {
            match spec_evaluate(d, cs[0]) {
                Err(e) => Err(e),
                Ok(b) => Ok(!b),
            }
        },
    }
}

// ---------------------------------------------------------------------
// The executable evaluator
// ---------------------------------------------------------------------
/// Whether `a` precedes `b` in lexicographic byte order.
fn bytes_less(a: &[u8], b: &[u8]) -> (r: bool)
    ensures
        r == bytes_lt(a@, b@),
    decreases a@.len(),
{
    let ghost ga = a@;
    let ghost gb = b@;
    let na = a.len();
    let nb = b.len();
    let mut k: usize = 0;
    proof {
        assert(a@.skip(0) =~= a@);
        assert(b@.skip(0) =~= b@);
    }
    loop
        invariant
            na == a@.len(),
            nb == b@.len(),
            0 <= k <= na,
            k <= nb,
            bytes_lt(a@, b@) == bytes_lt(a@.skip(k as int), b@.skip(k as int)),
        decreases na - k,
    {
        if k >= nb {
            proof {
                assert(b@.skip(k as int) =~= Seq::<u8>::empty());
            }
            return false;
        }
        if k >= na {
            proof {
                assert(a@.skip(k as int) =~= Seq::<u8>::empty());
                assert(b@.skip(k as int).len() > 0);
            }
            return true;
        }
        proof {
            assert(a@.skip(k as int)[0] == a@[k as int]);
            assert(b@.skip(k as int)[0] == b@[k as int]);
        }
        if a[k] != b[k] {
            return a[k] < b[k];
        }
        proof {
            assert(a@.skip(k as int).drop_first() =~= a@.skip(k + 1));
            assert(b@.skip(k as int).drop_first() =~= b@.skip(k + 1));
        }
        k = k + 1;
    }
}

/// Whether two byte vectors hold the same bytes.
fn bytes_equal(a: &Vec<u8>, b: &Vec<u8>) -> (r: bool)
    ensures
        r == (a@ == b@),
{
    if a.len() != b.len() {
        return false;
    }
    let n = a.len();
    let mut k: usize = 0;
    while k < n
        invariant
            n == a@.len(),
            n == b@.len(),
            0 <= k <= n,
            forall|j: int| 0 <= j < k ==> a@[j] == b@[j],
        decreases n - k,
    {
        if a[k] != b[k] {
            return false;
        }
        k = k + 1;
    }
    proof {
        assert(a@ =~= b@);
    }
    true
}

impl Document {
    /// Resolves one expression against this document: a literal
    /// yields itself; a field reference yields the value of the first
    /// field instance carrying the identifier.
    #[verifier::loop_isolation(false)]
    fn eval_expr<'a>(&'a self, expr: &'a Expression) -> (r: Result<&'a FieldValue, OperationError>)
        ensures
            match (r, spec_eval_expr(self@, expr@)) {
                (Ok(v), Ok(sv)) => value_view(*v) == sv,
                (Err(e), Err(se)) => op_error_matches(e, se),
                _ => false,
            },
    {
        match expr {
            Expression::Value(value) => Ok(value),
            Expression::Field(field_id) => {
                let n = self.fields.len();
                let mut k: usize = 0;
                proof {
                    broadcast use crate::schema::lemma_instance_views_index;

                    assert(self@.fields =~= instance_views(self.fields@));
                    assert(instance_views(self.fields@.skip(0)) =~= instance_views(self.fields@));
                    assert(self.fields@.skip(0) =~= self.fields@);
                }
                while k < n
                    invariant
                        n == self.fields@.len(),
                        0 <= k <= n,
                        spec_find_instance(self@.fields, *field_id) == spec_find_instance(
                            instance_views(self.fields@.skip(k as int)),
                            *field_id,
                        ),
                    decreases n - k,
                {
                    proof {
                        broadcast use crate::schema::lemma_instance_views_index;

                        crate::schema::lemma_instance_views_len(self.fields@.skip(k as int));
                        assert(self.fields@.skip(k as int)[0] == self.fields@[k as int]);
                        assert(instance_views(self.fields@.skip(k as int))[0] == instance_view(
                            self.fields@[k as int],
                        ));
                    }
                    if self.fields[k].id == *field_id {
                        proof {
                            assert(spec_find_instance(
                                instance_views(self.fields@.skip(k as int)),
                                *field_id,
                            ) == Some(instance_view(self.fields@[k as int]).value));
                        }
                        return Ok(&self.fields[k].value);
                    }
                    proof {
                        assert(instance_views(self.fields@.skip(k as int)).drop_first()
                            =~= instance_views(self.fields@.skip(k + 1))) by {
                            assert(self.fields@.skip(k as int).drop_first() =~= self.fields@.skip(
                                k + 1,
                            ));
                        }
                    }
                    k = k + 1;
                }
                proof {
                    assert(self.fields@.skip(n as int) =~= Seq::<FieldInstance>::empty());
                    assert(instance_views(self.fields@.skip(n as int))
                        =~= Seq::<SpecFieldInstance>::empty());
                }
                Err(OperationError::UnknownFieldIdentifier)
            },
        }
    }

    /// Evaluates a condition against this document.
    ///
    /// Binary comparisons require both operands to resolve to the
    /// same value variant; `Or` and `And` short-circuit left to
    /// right; `Not` negates.
    pub fn evaluate(&self, condition: &Condition) -> (r: Result<bool, OperationError>)
        ensures
            match (r, spec_evaluate(self@, condition@)) {
                (Ok(b), Ok(sb)) => b == sb,
                (Err(e), Err(se)) => op_error_matches(e, se),
                _ => false,
            },
        decreases condition,
    {
        match condition {
            Condition::Equal(left, right) => {
                let left_value = match self.eval_expr(left) {
                    Ok(v) => v,
                    Err(e) => {
                        return Err(e);
                    },
                };
                let right_value = match self.eval_expr(right) {
                    Ok(v) => v,
                    Err(e) => {
                        return Err(e);
                    },
                };
                eq_values(left_value, right_value)
            },
            Condition::NotEqual(left, right) => {
                let left_value = match self.eval_expr(left) {
                    Ok(v) => v,
                    Err(e) => {
                        return Err(e);
                    },
                };
                let right_value = match self.eval_expr(right) {
                    Ok(v) => v,
                    Err(e) => {
                        return Err(e);
                    },
                };
                match eq_values(left_value, right_value) {
                    Ok(b) => Ok(!b),
                    Err(e) => Err(e),
                }
            },
            Condition::GreaterThan(left, right) => {
                let left_value = match self.eval_expr(left) {
                    Ok(v) => v,
                    Err(e) => {
                        return Err(e);
                    },
                };
                let right_value = match self.eval_expr(right) {
                    Ok(v) => v,
                    Err(e) => {
                        return Err(e);
                    },
                };
                lt_values(right_value, left_value)
            },
            Condition::LessThan(left, right) => {
                let left_value = match self.eval_expr(left) {
                    Ok(v) => v,
                    Err(e) => {
                        return Err(e);
                    },
                };
                let right_value = match self.eval_expr(right) {
                    Ok(v) => v,
                    Err(e) => {
                        return Err(e);
                    },
                };
                lt_values(left_value, right_value)
            },
            Condition::Or(left, right) => {
                match self.evaluate(left) {
                    Err(e) => Err(e),
                    Ok(true) => Ok(true),
                    Ok(false) => self.evaluate(right),
                }
            },
            Condition::And(left, right) => {
                match self.evaluate(left) {
                    Err(e) => Err(e),
                    Ok(false) => Ok(false),
                    Ok(true) => self.evaluate(right),
                }
            },
            Condition::Not(inner) => {
                match self.evaluate(inner) {
                    Err(e) => Err(e),
                    Ok(b) => Ok(!b),
                }
            },
        }
    }
}

/// Compares two resolved values for equality.
fn eq_values(l: &FieldValue, r: &FieldValue) -> (res: Result<bool, OperationError>)
    ensures
        match (res, spec_eq_values(value_view(*l), value_view(*r))) {
            (Ok(b), Ok(sb)) => b == sb,
            (Err(e), Err(se)) => op_error_matches(e, se),
            _ => false,
        },
{
    match (l, r) {
        (FieldValue::Int(a), FieldValue::Int(b)) => Ok(*a == *b),
        (FieldValue::UInt(a), FieldValue::UInt(b)) => Ok(*a == *b),
        (FieldValue::Long(a), FieldValue::Long(b)) => Ok(*a == *b),
        (FieldValue::ULong(a), FieldValue::ULong(b)) => Ok(*a == *b),
        (FieldValue::Float(a), FieldValue::Float(b)) => Ok(*a == *b),
        (FieldValue::Bool(a), FieldValue::Bool(b)) => Ok(*a == *b),
        (FieldValue::DateTime(a), FieldValue::DateTime(b)) => Ok(*a == *b),
        (FieldValue::String(a), FieldValue::String(b)) => Ok(a.eq(b)),
        (FieldValue::ByteArray(a), FieldValue::ByteArray(b)) => Ok(bytes_equal(a, b)),
        (FieldValue::Array(_), FieldValue::Array(_)) => Err(
            OperationError::InvalidExpressionType,
        ),
        (FieldValue::Object(_), FieldValue::Object(_)) => Err(
            OperationError::InvalidExpressionType,
        ),
        (FieldValue::Enum(_), FieldValue::Enum(_)) => Err(OperationError::InvalidExpressionType),
        _ => Err(
            OperationError::ExpressionTypeMismatch { left: l.simple_type(), right: r.simple_type() },
        ),
    }
}

/// Compares two resolved values in strict order.
fn lt_values(l: &FieldValue, r: &FieldValue) -> (res: Result<bool, OperationError>)
    ensures
        match (res, spec_lt_values(value_view(*l), value_view(*r))) {
            (Ok(b), Ok(sb)) => b == sb,
            (Err(e), Err(se)) => op_error_matches(e, se),
            _ => false,
        },
{
    match (l, r) {
        (FieldValue::Int(a), FieldValue::Int(b)) => Ok(*a < *b),
        (FieldValue::UInt(a), FieldValue::UInt(b)) => Ok(*a < *b),
        (FieldValue::Long(a), FieldValue::Long(b)) => Ok(*a < *b),
        (FieldValue::ULong(a), FieldValue::ULong(b)) => Ok(*a < *b),
        (FieldValue::DateTime(a), FieldValue::DateTime(b)) => Ok(*a < *b),
        (FieldValue::String(a), FieldValue::String(b)) => Ok(
            bytes_less(a.as_str().as_bytes(), b.as_str().as_bytes()),
        ),
        (FieldValue::Float(_), FieldValue::Float(_)) => Err(
            OperationError::InvalidExpressionType,
        ),
        (FieldValue::Bool(_), FieldValue::Bool(_)) => Err(OperationError::InvalidExpressionType),
        (FieldValue::ByteArray(_), FieldValue::ByteArray(_)) => Err(
            OperationError::InvalidExpressionType,
        ),
        (FieldValue::Array(_), FieldValue::Array(_)) => Err(
            OperationError::InvalidExpressionType,
        ),
        (FieldValue::Object(_), FieldValue::Object(_)) => Err(
            OperationError::InvalidExpressionType,
        ),
        (FieldValue::Enum(_), FieldValue::Enum(_)) => Err(OperationError::InvalidExpressionType),
        _ => Err(
            OperationError::ExpressionTypeMismatch { left: l.simple_type(), right: r.simple_type() },
        ),
    }
}

} // verus!
