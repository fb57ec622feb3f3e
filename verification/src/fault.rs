//! Faults: what the interpreter reports when the program it runs goes wrong.
use vstd::prelude::*;
use crate::bir::{BirRecord, ControlPoint, Expr, Place, TargetPlace};
use crate::span::FileSpan;

verus! {

#[derive(Clone, Copy, Debug, PartialEq, Eq, Structural, Hash)]
pub enum FaultKind {
    /// A traversal met a canceled permission.
    UseOfCanceledPermission,
    /// The permission does not allow the operation, such as giving a leased
    /// value or leasing a shared one.
    InsufficientPermission,
    /// The class has no field of that name.
    NoSuchField,
    /// A value of another kind was expected.
    TypeMismatch,
    /// Read of a slot that holds no value.
    Uninitialized,
    /// The code holds an error node.
    CompilationError,
    /// The code reached a panic terminator.
    Panic,
    /// The host reported a failure.
    HostError,
    /// An integer operation left the range of its type.
    Overflow,
    /// Division by zero.
    DivideByZero,
}

/// A fault with the span of the source it is attributed to.
#[derive(Clone, Copy, Debug, PartialEq, Eq, Structural, Hash)]
pub struct Fault {
    pub kind: FaultKind,
    pub span: FileSpan,
}

impl BirRecord {
    /// Where the expression that `place` was made from stands in the source.
    pub open spec fn spec_place_span(&self, place: Place) -> FileSpan {
        self.spec_span_of(self.origins.places@[place.index as int])
    }

    /// Where the expression that `target` was made from stands in the source.
    pub open spec fn spec_target_span(&self, target: TargetPlace) -> FileSpan {
        self.spec_span_of(self.origins.target_places@[target.index as int])
    }

    /// Where the expression that `expr` was made from stands in the source.
    pub open spec fn spec_expr_span(&self, expr: Expr) -> FileSpan {
        self.spec_span_of(self.origins.exprs@[expr.index as int])
    }

    /// Where the expression that `point` was made from stands in the source.
    pub open spec fn spec_point_span(&self, point: ControlPoint) -> FileSpan {
        self.spec_span_of(self.origins.control_points@[point.index as int])
    }

    #[verifier::when_used_as_spec(spec_place_span)]
    pub fn place_span(&self, place: Place) -> (r: FileSpan)
        requires
            self.origins.wf(&self.data.tables, &self.syntax_tree),
            place.index < self.data.tables.places@.len(),
        ensures
            r == self.spec_place_span(place),
    {
        self.syntax_tree.spans[self.origins.places[place.index].index].in_file(self.input_file)
    }

    #[verifier::when_used_as_spec(spec_target_span)]
    pub fn target_span(&self, target: TargetPlace) -> (r: FileSpan)
        requires
            self.origins.wf(&self.data.tables, &self.syntax_tree),
            target.index < self.data.tables.target_places@.len(),
        ensures
            r == self.spec_target_span(target),
    {
        self.syntax_tree.spans[self.origins.target_places[target.index].index].in_file(
            self.input_file,
        )
    }

    #[verifier::when_used_as_spec(spec_expr_span)]
    pub fn expr_span(&self, expr: Expr) -> (r: FileSpan)
        requires
            self.origins.wf(&self.data.tables, &self.syntax_tree),
            expr.index < self.data.tables.exprs@.len(),
        ensures
            r == self.spec_expr_span(expr),
    {
        self.syntax_tree.spans[self.origins.exprs[expr.index].index].in_file(self.input_file)
    }

    #[verifier::when_used_as_spec(spec_point_span)]
    pub fn point_span(&self, point: ControlPoint) -> (r: FileSpan)
        requires
            self.origins.wf(&self.data.tables, &self.syntax_tree),
            point.index < self.data.tables.control_points@.len(),
        ensures
            r == self.spec_point_span(point),
    {
        self.syntax_tree.spans[self.origins.control_points[point.index].index].in_file(
            self.input_file,
        )
    }
}

} // verus!
