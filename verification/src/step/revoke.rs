//! Revocation: canceling a permission and everything that descends from it.
use vstd::prelude::*;
use crate::machine::Machine;
use crate::model::{MachineModel, Permission, PermissionData, ProgramCounter};

verus! {

/// `data`, canceled.  A permission that was canceled before keeps the place
/// recorded then; otherwise the cancellation is attributed to `at`.
pub open spec fn canceled_data(data: PermissionData, at: Option<ProgramCounter>) -> PermissionData {
    PermissionData {
        canceled: true,
        canceled_at: if data.canceled {
            data.canceled_at
        } else {
            at
        },
        tenant: None,
        ..data
    }
}

/// The table `permissions` after `p`, its tenant, the tenant of its tenant and
/// so on have been canceled, each losing its tenant.
pub open spec fn cancel_chain(
    permissions: Seq<Option<PermissionData>>,
    p: Permission,
    at: Option<ProgramCounter>,
) -> Seq<Option<PermissionData>>
    decreases permissions.len() - p.index,
{
    if p.index < permissions.len() {
        match permissions[p.index as int] {
            Some(data) => {
                let canceled = permissions.update(p.index as int, Some(canceled_data(data, at)));
                match data.tenant {
                    Some(t) => if p.index < t.index < permissions.len() {
                        cancel_chain(canceled, t, at)
                    } else {
                        canceled
                    },
                    None => canceled,
                }
            },
            None => permissions,
        }
    } else {
        permissions
    }
}

impl MachineModel {
    /// Detaches `p` from its lessor: if the lessor's tenant is `p`, the lessor
    /// is left without tenant.
    pub open spec fn detach(self, p: Permission) -> MachineModel {
        match self.permission(p) {
            Some(data) => match data.lessor {
                Some(l) => match self.permission(l) {
                    Some(lessor) => if lessor.tenant == Some(p) {
                        self.set_permission(l, PermissionData { tenant: None, ..lessor })
                    } else {
                        self
                    },
                    None => self,
                },
                None => self,
            },
            None => self,
        }
    }

    /// Cancels `p` and everything in its subtree: its tenant, the tenant of
    /// its tenant, and so on.  `p` stops being the tenant of its lessor.
    /// Values held through a canceled permission stay where they are; reading
    /// them faults.
    pub open spec fn revoke(self, p: Permission) -> MachineModel {
        let detached = self.detach(p);
        MachineModel { permissions: cancel_chain(detached.permissions, p, self.pc()), ..detached }
    }

    /// Cancels the tenant of `p`, if it has one, with the tenant's subtree.
    pub open spec fn revoke_tenant(self, p: Permission) -> MachineModel {
        match self.tenant(p) {
            Some(t) => self.revoke(t),
            None => self,
        }
    }

    /// Cancels the tenant of `p` if it is an exclusive borrow.
    pub open spec fn revoke_leased_tenant(self, p: Permission) -> MachineModel {
        match self.tenant(p) {
            Some(t) => match self.permission(t) {
                Some(data) => if data.kind == crate::model::PermissionKind::Leased {
                    self.revoke(t)
                } else {
                    self
                },
                None => self,
            },
            None => self,
        }
    }

    /// Cancels the tenants of `permissions[from..]`, in order.
    pub open spec fn revoke_tenants(self, permissions: Seq<Permission>, from: int) -> MachineModel
        decreases permissions.len() - from,
    {
        if 0 <= from < permissions.len() {
            self.revoke_tenant(permissions[from]).revoke_tenants(permissions, from + 1)
        } else {
            self
        }
    }

    /// Cancels those tenants of `permissions[from..]` that are exclusive
    /// borrows, in order.
    pub open spec fn revoke_leased_tenants(self, permissions: Seq<Permission>, from: int) -> MachineModel
        decreases permissions.len() - from,
    {
        if 0 <= from < permissions.len() {
            self.revoke_leased_tenant(permissions[from]).revoke_leased_tenants(permissions, from + 1)
        } else {
            self
        }
    }
}

impl Machine {
    /// Cancels `p` and everything in its subtree.
    pub fn revoke(&mut self, p: Permission)
        ensures
            final(self)@ == old(self)@.revoke(p),
    {
        let at = self.pc();
        match self.permission(p) {
            Some(data) => match data.lessor {
                Some(l) => match self.permission(l) {
                    Some(lessor) => match lessor.tenant {
                        Some(t) => if t == p {
                            self.set_permission(l, PermissionData { tenant: None, ..lessor });
                        },
                        None => {},
                    },
                    None => {},
                },
                None => {},
            },
            None => {},
        }
        let ghost detached = self@;
        assert(detached == old(self)@.detach(p));
        let mut current = p;
        let mut more = true;
        while more
            invariant
                self@.stack == detached.stack,
                self@.objects == detached.objects,
                more ==> cancel_chain(self@.permissions, current, at) == cancel_chain(
                    detached.permissions,
                    p,
                    at,
                ),
                !more ==> self@.permissions == cancel_chain(detached.permissions, p, at),
            decreases
                if !more {
                    0
                } else if current.index < self@.permissions.len() {
                    self@.permissions.len() - current.index + 1
                } else {
                    1
                },
        {
            match self.permission(current) {
                Some(data) => {
                    let canceled = PermissionData {
                        canceled: true,
                        canceled_at: if data.canceled {
                            data.canceled_at
                        } else {
                            at
                        },
                        tenant: None,
                        ..data
                    };
                    self.set_permission(current, canceled);
                    match data.tenant {
                        Some(t) => {
                            if current.index < t.index && t.index < self.permission_count() {
                                current = t;
                            } else {
                                more = false;
                            }
                        },
                        None => {
                            more = false;
                        },
                    }
                },
                None => {
                    more = false;
                },
            }
        }
    }

    /// Cancels the tenant of `p`, if it has one, with the tenant's subtree.
    pub fn revoke_tenant(&mut self, p: Permission)
        ensures
            final(self)@ == old(self)@.revoke_tenant(p),
    {
        match self.permission(p) {
            Some(data) => match data.tenant {
                Some(t) => self.revoke(t),
                None => {},
            },
            None => {},
        }
    }

    /// Cancels the tenant of `p` if it is an exclusive borrow.
    pub fn revoke_leased_tenant(&mut self, p: Permission)
        ensures
            final(self)@ == old(self)@.revoke_leased_tenant(p),
    {
        match self.permission(p) {
            Some(data) => match data.tenant {
                Some(t) => match self.permission(t) {
                    Some(tenant) => if tenant.kind == crate::model::PermissionKind::Leased {
                        self.revoke(t);
                    },
                    None => {},
                },
                None => {},
            },
            None => {},
        }
    }

    /// Cancels the tenants of `permissions`, in order.
    pub fn revoke_tenants(&mut self, permissions: &Vec<Permission>)
        ensures
            final(self)@ == old(self)@.revoke_tenants(permissions@, 0),
    {
        let mut i: usize = 0;
        while i < permissions.len()
            invariant
                i <= permissions@.len(),
                self@.revoke_tenants(permissions@, i as int) == old(self)@.revoke_tenants(
                    permissions@,
                    0,
                ),
            decreases permissions@.len() - i,
        {
            self.revoke_tenant(permissions[i]);
            i += 1;
        }
    }

    /// Cancels those tenants of `permissions` that are exclusive borrows, in
    /// order.
    pub fn revoke_leased_tenants(&mut self, permissions: &Vec<Permission>)
        ensures
            final(self)@ == old(self)@.revoke_leased_tenants(permissions@, 0),
    {
        let mut i: usize = 0;
        while i < permissions.len()
            invariant
                i <= permissions@.len(),
                self@.revoke_leased_tenants(permissions@, i as int) == old(
                    self,
                )@.revoke_leased_tenants(permissions@, 0),
            decreases permissions@.len() - i,
        {
            self.revoke_leased_tenant(permissions[i]);
            i += 1;
        }
    }
}

} // verus!
