//! Leasing: producing an exclusive borrow of the value at a place.
use vstd::prelude::*;
use crate::bir::{BirRecord, Place};
use crate::db::Db;
use crate::fault::{Fault, FaultKind};
use crate::machine::Machine;
use crate::model::{MachineModel, PermissionKind, Value};
use crate::span::FileSpan;
use crate::step::traversal::{ObjectTraversal, ObjectTraversalModel};

verus! {

impl MachineModel {
    /// Leases the value that `traversal` found.
    ///
    /// A new exclusive borrow is made whose lessor is the value's permission;
    /// it becomes the tenant of that permission, and a prior tenant is
    /// canceled with everything that descends from it.  A shared value cannot
    /// be leased.
    pub open spec fn lease(self, traversal: ObjectTraversalModel, span: FileSpan) -> (
        MachineModel,
        Result<Value, Fault>,
    ) {
        match self.permission(traversal.value.permission) {
            Some(data) => if data.spec_exclusive() {
                let (m, value) = self.borrow_value(traversal.value, PermissionKind::Leased);
                (m, Ok(value))
            } else {
                (self, Err(Fault { kind: FaultKind::InsufficientPermission, span }))
            },
            None => (self, Err(Fault { kind: FaultKind::UseOfCanceledPermission, span })),
        }
    }

    /// Resolves `place` and leases the value found there.
    pub open spec fn lease_place(self, db: &Db, code: &BirRecord, place: Place) -> (
        MachineModel,
        Result<Value, Fault>,
    ) {
        let (m, r) = self.traverse_to_object(db, code, place);
        match r {
            Err(fault) => (m, Err(fault)),
            Ok(traversal) => m.lease(traversal, code.spec_place_span(place)),
        }
    }
}

impl Machine {
    /// Leases the value that `traversal` found.
    pub fn lease(&mut self, traversal: &ObjectTraversal, span: FileSpan) -> (r: Result<Value, Fault>)
        ensures
            (final(self)@, r) == old(self)@.lease(traversal@, span),
    {
        match self.permission(traversal.value.permission) {
            Some(data) => if data.exclusive() {
                Ok(self.borrow_value(traversal.value, PermissionKind::Leased))
            } else {
                Err(Fault { kind: FaultKind::InsufficientPermission, span })
            },
            None => Err(Fault { kind: FaultKind::UseOfCanceledPermission, span }),
        }
    }

    /// Resolves `place` and leases the value found there.
    pub fn lease_place(&mut self, db: &Db, code: &BirRecord, place: Place) -> (r: Result<Value, Fault>)
        requires
            code.wf(db),
            place.index < code.data.tables.places@.len(),
        ensures
            (final(self)@, r) == old(self)@.lease_place(db, code, place),
    {
        let traversal = self.traverse_to_object(db, code, place)?;
        self.lease(&traversal, code.place_span(place))
    }
}

} // verus!
