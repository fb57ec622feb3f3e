//! Installing a tenant: registering a borrow with the permission it borrows
//! from.
use vstd::prelude::*;
use crate::machine::Machine;
use crate::model::{MachineModel, Permission, PermissionData, PermissionKind, Value};

verus! {

impl MachineModel {
    /// Makes `tenant` the tenant of `lessor`.  A prior tenant of `lessor` is
    /// canceled first, with everything that descends from it.
    pub open spec fn install_tenant(self, lessor: Permission, tenant: Permission) -> MachineModel {
        let revoked = self.revoke_tenant(lessor);
        let linked = match revoked.permission(lessor) {
            Some(data) => revoked.set_permission(
                lessor,
                PermissionData { tenant: Some(tenant), ..data },
            ),
            None => revoked,
        };
        match linked.permission(tenant) {
            Some(data) => linked.set_permission(tenant, PermissionData { lessor: Some(lessor), ..data }),
            None => linked,
        }
    }

    /// Borrows `value` with the given kind: a new permission whose lessor is
    /// the permission of `value` becomes the tenant of that permission, and
    /// the result is the same object held through the new permission.
    pub open spec fn borrow_value(self, value: Value, kind: PermissionKind) -> (MachineModel, Value) {
        let (m, tenant) = self.new_permission(PermissionData::spec_borrowed(kind, value.permission));
        (m.install_tenant(value.permission, tenant), Value { object: value.object, permission: tenant })
    }
}

impl Machine {
    /// Makes `tenant` the tenant of `lessor`, canceling a prior tenant.
    pub fn install_tenant(&mut self, lessor: Permission, tenant: Permission)
        ensures
            final(self)@ == old(self)@.install_tenant(lessor, tenant),
    {
        self.revoke_tenant(lessor);
        match self.permission(lessor) {
            Some(data) => self.set_permission(lessor, PermissionData { tenant: Some(tenant), ..data }),
            None => {},
        }
        match self.permission(tenant) {
            Some(data) => self.set_permission(tenant, PermissionData { lessor: Some(lessor), ..data }),
            None => {},
        }
    }

    /// Borrows `value` with the given kind.
    pub fn borrow_value(&mut self, value: Value, kind: PermissionKind) -> (r: Value)
        ensures
            (final(self)@, r) == old(self)@.borrow_value(value, kind),
    {
        let tenant = self.new_permission(PermissionData::borrowed(kind, value.permission));
        self.install_tenant(value.permission, tenant);
        Value { object: value.object, permission: tenant }
    }
}

} // verus!
