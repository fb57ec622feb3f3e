//! Operators on primitive values.
use vstd::prelude::*;
use crate::bir::Op;
use crate::db::str_eq;
use crate::fault::{Fault, FaultKind};
use crate::machine::{Machine, ObjectData};
use crate::model::{MachineModel, Object, ObjectModel, PermissionData, Value};
use crate::span::FileSpan;

verus! {

/// `op` on two unsigned integers.  Arithmetic that leaves the range of the
/// type is an overflow.
pub open spec fn unsigned_op(op: Op, a: u64, b: u64) -> Result<ObjectModel, FaultKind> {
    match op {
        Op::Plus => match a.checked_add(b) {
            Some(n) => Ok(ObjectModel::Uint(n)),
            None => Err(FaultKind::Overflow),
        },
        Op::Minus => match a.checked_sub(b) {
            Some(n) => Ok(ObjectModel::Uint(n)),
            None => Err(FaultKind::Overflow),
        },
        Op::Times => match a.checked_mul(b) {
            Some(n) => Ok(ObjectModel::Uint(n)),
            None => Err(FaultKind::Overflow),
        },
        Op::DividedBy => if b == 0 {
            Err(FaultKind::DivideByZero)
        } else {
            Ok(ObjectModel::Uint(a / b))
        },
        Op::EqualEqual => Ok(ObjectModel::Bool(a == b)),
        Op::LessThan => Ok(ObjectModel::Bool(a < b)),
        Op::GreaterThan => Ok(ObjectModel::Bool(a > b)),
        Op::LessEqual => Ok(ObjectModel::Bool(a <= b)),
        Op::GreaterEqual => Ok(ObjectModel::Bool(a >= b)),
    }
}

/// `op` on two signed integers.  Division rounds toward zero.
pub open spec fn signed_op(op: Op, a: i64, b: i64) -> Result<ObjectModel, FaultKind> {
    match op {
        Op::Plus => match a.checked_add(b) {
            Some(n) => Ok(ObjectModel::Int(n)),
            None => Err(FaultKind::Overflow),
        },
        Op::Minus => match a.checked_sub(b) {
            Some(n) => Ok(ObjectModel::Int(n)),
            None => Err(FaultKind::Overflow),
        },
        Op::Times => match a.checked_mul(b) {
            Some(n) => Ok(ObjectModel::Int(n)),
            None => Err(FaultKind::Overflow),
        },
        Op::DividedBy => if b == 0 {
            Err(FaultKind::DivideByZero)
        } else {
            match a.checked_div(b) {
                Some(n) => Ok(ObjectModel::Int(n)),
                None => Err(FaultKind::Overflow),
            }
        },
        Op::EqualEqual => Ok(ObjectModel::Bool(a == b)),
        Op::LessThan => Ok(ObjectModel::Bool(a < b)),
        Op::GreaterThan => Ok(ObjectModel::Bool(a > b)),
        Op::LessEqual => Ok(ObjectModel::Bool(a <= b)),
        Op::GreaterEqual => Ok(ObjectModel::Bool(a >= b)),
    }
}

/// The primitive that `op` produces from `lhs` and `rhs`.
///
/// Integers of the same signedness support arithmetic and comparison.
/// Booleans, strings and units support equality.  Everything else is a
/// mismatch of types.
pub open spec fn apply_op_spec(op: Op, lhs: ObjectModel, rhs: ObjectModel) -> Result<
    ObjectModel,
    FaultKind,
> {
    match (lhs, rhs) {
        (ObjectModel::Uint(a), ObjectModel::Uint(b)) => unsigned_op(op, a, b),
        (ObjectModel::Int(a), ObjectModel::Int(b)) => signed_op(op, a, b),
        (ObjectModel::Bool(a), ObjectModel::Bool(b)) => if op == Op::EqualEqual {
            Ok(ObjectModel::Bool(a == b))
        } else {
            Err(FaultKind::TypeMismatch)
        },
        (ObjectModel::String(a), ObjectModel::String(b)) => if op == Op::EqualEqual {
            Ok(ObjectModel::Bool(a == b))
        } else {
            Err(FaultKind::TypeMismatch)
        },
        (ObjectModel::Unit, ObjectModel::Unit) => if op == Op::EqualEqual {
            Ok(ObjectModel::Bool(true))
        } else {
            Err(FaultKind::TypeMismatch)
        },
        _ => Err(FaultKind::TypeMismatch),
    }
}

/// The primitive that the unary `op` produces from `rhs`: the negation of a
/// signed integer.
pub open spec fn apply_unary_spec(op: Op, rhs: ObjectModel) -> Result<ObjectModel, FaultKind> {
    match (op, rhs) {
        (Op::Minus, ObjectModel::Int(a)) => match 0i64.checked_sub(a) {
            Some(n) => Ok(ObjectModel::Int(n)),
            None => Err(FaultKind::Overflow),
        },
        _ => Err(FaultKind::TypeMismatch),
    }
}

impl MachineModel {
    /// Stores the outcome of an operator: a fresh shared-immutable value for
    /// a result, and a fault at `span` otherwise.
    pub open spec fn produce(self, outcome: Result<ObjectModel, FaultKind>, span: FileSpan) -> (
        MachineModel,
        Result<Value, Fault>,
    ) {
        match outcome {
            Ok(data) => {
                let (m, value) = self.new_value(data, PermissionData::spec_our());
                (m, Ok(value))
            },
            Err(kind) => (self, Err(Fault { kind, span })),
        }
    }

    /// Applies `op` to the objects behind `lhs` and `rhs`.
    pub open spec fn apply_op(self, op: Op, lhs: Object, rhs: Object, span: FileSpan) -> (
        MachineModel,
        Result<Value, Fault>,
    ) {
        match (self.object(lhs), self.object(rhs)) {
            (Some(l), Some(r)) => self.produce(apply_op_spec(op, l, r), span),
            _ => (self, Err(Fault { kind: FaultKind::Uninitialized, span })),
        }
    }

    /// Applies the unary `op` to the object behind `rhs`.
    pub open spec fn apply_unary(self, op: Op, rhs: Object, span: FileSpan) -> (
        MachineModel,
        Result<Value, Fault>,
    ) {
        match self.object(rhs) {
            Some(r) => self.produce(apply_unary_spec(op, r), span),
            None => (self, Err(Fault { kind: FaultKind::Uninitialized, span })),
        }
    }
}

/// The model of the outcome of an operator.
pub open spec fn data_outcome(r: Result<ObjectData, FaultKind>) -> Result<ObjectModel, FaultKind> {
    match r {
        Ok(data) => Ok(data@),
        Err(kind) => Err(kind),
    }
}

fn unsigned(op: Op, a: u64, b: u64) -> (r: Result<ObjectData, FaultKind>)
    ensures
        data_outcome(r) == unsigned_op(op, a, b),
{
    match op {
        Op::Plus => match a.checked_add(b) {
            Some(n) => Ok(ObjectData::Uint(n)),
            None => Err(FaultKind::Overflow),
        },
        Op::Minus => match a.checked_sub(b) {
            Some(n) => Ok(ObjectData::Uint(n)),
            None => Err(FaultKind::Overflow),
        },
        Op::Times => match a.checked_mul(b) {
            Some(n) => Ok(ObjectData::Uint(n)),
            None => Err(FaultKind::Overflow),
        },
        Op::DividedBy => if b == 0 {
            Err(FaultKind::DivideByZero)
        } else {
            Ok(ObjectData::Uint(a / b))
        },
        Op::EqualEqual => Ok(ObjectData::Bool(a == b)),
        Op::LessThan => Ok(ObjectData::Bool(a < b)),
        Op::GreaterThan => Ok(ObjectData::Bool(a > b)),
        Op::LessEqual => Ok(ObjectData::Bool(a <= b)),
        Op::GreaterEqual => Ok(ObjectData::Bool(a >= b)),
    }
}

fn signed(op: Op, a: i64, b: i64) -> (r: Result<ObjectData, FaultKind>)
    ensures
        data_outcome(r) == signed_op(op, a, b),
{
    match op {
        Op::Plus => match a.checked_add(b) {
            Some(n) => Ok(ObjectData::Int(n)),
            None => Err(FaultKind::Overflow),
        },
        Op::Minus => match a.checked_sub(b) {
            Some(n) => Ok(ObjectData::Int(n)),
            None => Err(FaultKind::Overflow),
        },
        Op::Times => match a.checked_mul(b) {
            Some(n) => Ok(ObjectData::Int(n)),
            None => Err(FaultKind::Overflow),
        },
        Op::DividedBy => if b == 0 {
            Err(FaultKind::DivideByZero)
        } else {
            match a.checked_div(b) {
                Some(n) => Ok(ObjectData::Int(n)),
                None => Err(FaultKind::Overflow),
            }
        },
        Op::EqualEqual => Ok(ObjectData::Bool(a == b)),
        Op::LessThan => Ok(ObjectData::Bool(a < b)),
        Op::GreaterThan => Ok(ObjectData::Bool(a > b)),
        Op::LessEqual => Ok(ObjectData::Bool(a <= b)),
        Op::GreaterEqual => Ok(ObjectData::Bool(a >= b)),
    }
}

/// The primitive that `op` produces from `lhs` and `rhs`.
pub fn apply(op: Op, lhs: &ObjectData, rhs: &ObjectData) -> (r: Result<ObjectData, FaultKind>)
    ensures
        data_outcome(r) == apply_op_spec(op, lhs@, rhs@),
{
    match (lhs, rhs) {
        (ObjectData::Uint(a), ObjectData::Uint(b)) => unsigned(op, *a, *b),
        (ObjectData::Int(a), ObjectData::Int(b)) => signed(op, *a, *b),
        (ObjectData::Bool(a), ObjectData::Bool(b)) => if op == Op::EqualEqual {
            Ok(ObjectData::Bool(*a == *b))
        } else {
            Err(FaultKind::TypeMismatch)
        },
        (ObjectData::String(a), ObjectData::String(b)) => if op == Op::EqualEqual {
            Ok(ObjectData::Bool(str_eq(a.as_str(), b.as_str())))
        } else {
            Err(FaultKind::TypeMismatch)
        },
        (ObjectData::Unit, ObjectData::Unit) => if op == Op::EqualEqual {
            Ok(ObjectData::Bool(true))
        } else {
            Err(FaultKind::TypeMismatch)
        },
        _ => Err(FaultKind::TypeMismatch),
    }
}

/// The primitive that the unary `op` produces from `rhs`.
pub fn apply_unary(op: Op, rhs: &ObjectData) -> (r: Result<ObjectData, FaultKind>)
    ensures
        data_outcome(r) == apply_unary_spec(op, rhs@),
{
    match (op, rhs) {
        (Op::Minus, ObjectData::Int(a)) => match 0i64.checked_sub(*a) {
            Some(n) => Ok(ObjectData::Int(n)),
            None => Err(FaultKind::Overflow),
        },
        _ => Err(FaultKind::TypeMismatch),
    }
}

impl Machine {
    /// Stores the outcome of an operator.
    pub fn produce(&mut self, outcome: Result<ObjectData, FaultKind>, span: FileSpan) -> (r: Result<
        Value,
        Fault,
    >)
        ensures
            (final(self)@, r) == old(self)@.produce(data_outcome(outcome), span),
    {
        match outcome {
            Ok(data) => Ok(self.new_value(data, PermissionData::our())),
            Err(kind) => Err(Fault { kind, span }),
        }
    }

    /// Applies `op` to the objects behind `lhs` and `rhs`.
    pub fn apply_op(&mut self, op: Op, lhs: Object, rhs: Object, span: FileSpan) -> (r: Result<
        Value,
        Fault,
    >)
        ensures
            (final(self)@, r) == old(self)@.apply_op(op, lhs, rhs, span),
    {
        let outcome = match (self.object(lhs), self.object(rhs)) {
            (Some(l), Some(r)) => apply(op, l, r),
            _ => {
                return Err(Fault { kind: FaultKind::Uninitialized, span });
            },
        };
        self.produce(outcome, span)
    }

    /// Applies the unary `op` to the object behind `rhs`.
    pub fn apply_unary(&mut self, op: Op, rhs: Object, span: FileSpan) -> (r: Result<Value, Fault>)
        ensures
            (final(self)@, r) == old(self)@.apply_unary(op, rhs, span),
    {
        let outcome = match self.object(rhs) {
            Some(r) => apply_unary(op, r),
            None => {
                return Err(Fault { kind: FaultKind::Uninitialized, span });
            },
        };
        self.produce(outcome, span)
    }
}

} // verus!
