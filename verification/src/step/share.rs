//! Sharing: producing a read-only alias of the value at a place.
use vstd::prelude::*;
use crate::bir::{BirRecord, Place};
use crate::db::Db;
use crate::fault::{Fault, FaultKind};
use crate::machine::Machine;
use crate::model::{MachineModel, PermissionData, PermissionKind, Value};
use crate::span::FileSpan;
use crate::step::traversal::{ObjectTraversal, ObjectTraversalModel};

verus! {

impl MachineModel {
    /// Shares the value that `traversal` found.
    ///
    /// Sharing reads the place, which ends exclusive borrows of the
    /// permissions on the path; if that cancels the permission of the value
    /// itself, sharing faults.  A uniquely owned value is then demoted: its
    /// permission becomes shared-immutable, for every value that holds it, and
    /// the result aliases it.  A shared-immutable value is aliased.  From a
    /// borrowed value, a new shared borrow is made whose lessor is the value's
    /// permission; it replaces any prior tenant of that permission.
    pub open spec fn share(self, traversal: ObjectTraversalModel, span: FileSpan) -> (
        MachineModel,
        Result<Value, Fault>,
    ) {
        let m = self.revoke_leased_tenants(traversal.traversed, 0);
        match m.permission(traversal.value.permission) {
            Some(data) => if data.canceled {
                (m, Err(Fault { kind: FaultKind::UseOfCanceledPermission, span }))
            } else {
                match data.kind {
                    PermissionKind::My => (
                        m.set_permission(
                            traversal.value.permission,
                            PermissionData { kind: PermissionKind::Our, ..data },
                        ),
                        Ok(traversal.value),
                    ),
                    PermissionKind::Our => (m, Ok(traversal.value)),
                    _ => {
                        let (m, value) = m.borrow_value(traversal.value, PermissionKind::Shared);
                        (m, Ok(value))
                    },
                }
            },
            None => (m, Err(Fault { kind: FaultKind::UseOfCanceledPermission, span })),
        }
    }

    /// Resolves `place` and shares the value found there.
    pub open spec fn share_place(self, db: &Db, code: &BirRecord, place: Place) -> (
        MachineModel,
        Result<Value, Fault>,
    ) {
        let (m, r) = self.traverse_to_object(db, code, place);
        match r {
            Err(fault) => (m, Err(fault)),
            Ok(traversal) => m.share(traversal, code.spec_place_span(place)),
        }
    }
}

impl Machine {
    /// Shares the value that `traversal` found.
    pub fn share(&mut self, traversal: &ObjectTraversal, span: FileSpan) -> (r: Result<Value, Fault>)
        ensures
            (final(self)@, r) == old(self)@.share(traversal@, span),
    {
        self.revoke_leased_tenants(&traversal.traversed);
        match self.permission(traversal.value.permission) {
            Some(data) => if data.canceled {
                Err(Fault { kind: FaultKind::UseOfCanceledPermission, span })
            } else {
                match data.kind {
                    PermissionKind::My => {
                        self.set_permission(
                            traversal.value.permission,
                            PermissionData { kind: PermissionKind::Our, ..data },
                        );
                        Ok(traversal.value)
                    },
                    PermissionKind::Our => Ok(traversal.value),
                    _ => Ok(self.borrow_value(traversal.value, PermissionKind::Shared)),
                }
            },
            None => Err(Fault { kind: FaultKind::UseOfCanceledPermission, span }),
        }
    }

    /// Resolves `place` and shares the value found there.
    pub fn share_place(&mut self, db: &Db, code: &BirRecord, place: Place) -> (r: Result<Value, Fault>)
        requires
            code.wf(db),
            place.index < code.data.tables.places@.len(),
        ensures
            (final(self)@, r) == old(self)@.share_place(db, code, place),
    {
        let traversal = self.traverse_to_object(db, code, place)?;
        self.share(&traversal, code.place_span(place))
    }
}

} // verus!
