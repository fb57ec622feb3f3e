//! A step keeps the links among the permissions well formed.
use vstd::prelude::*;
use crate::bir::{
    ActionData, BirRecord, ControlPoint, ControlPointData, Expr, ExprData, LocalVariable, Name, Place,
    TargetPlace, TerminatorData, TerminatorExpr,
};
use crate::db::Db;
use crate::model::{
    MachineModel, ObjectModel, Permission, PermissionData, PermissionKind, ProgramCounter, Slot, Value,
};
use crate::step::call::{callee_of, parameter_names, CallResult, Callee};
use crate::step::eval::{display_text, pinned};
use crate::step::gc::{lemma_reachable_step, Node};
use crate::step::links::{entry_linked, lemma_revoke_at, lemma_revoke_links, nth_tenant};
use crate::step::revoke::cancel_chain;
use crate::step::traversal::SlotAddress;

verus! {

impl MachineModel {
    /// `after` has at least the permissions of this machine, and if the links
    /// of this machine are well formed and the table of `after` is not longer
    /// than a table can be, the links of `after` are well formed.
    pub open spec fn keeps_links(self, after: MachineModel) -> bool {
        &&& after.permissions.len() >= self.permissions.len()
        &&& self.links_wf() && after.permissions.len() <= usize::MAX ==> after.links_wf()
    }
}

/// Allocating a value that borrows from nothing keeps the links well formed.
pub proof fn lemma_new_value_links(m: MachineModel, data: ObjectModel, permission: PermissionData)
    requires
        permission == PermissionData::spec_my() || permission == PermissionData::spec_our(),
    ensures
        m.keeps_links(m.new_value(data, permission).0),
{
    let after = m.new_value(data, permission).0;
    if m.links_wf() {
        assert forall|p: Permission| p.index < after.permissions.len() implies #[trigger] entry_linked(
            after.permissions,
            p,
        ) by {
            if p.index < m.permissions.len() {
                assert(entry_linked(m.permissions, p));
            }
        }
    }
}

/// Revoking the tenant of a permission keeps the links well formed, keeps
/// what is allocated and what is canceled, and leaves the permission without
/// tenant.
pub proof fn lemma_revoke_tenant_keeps(m: MachineModel, p: Permission)
    ensures
        m.keeps_links(m.revoke_tenant(p)),
        m.keeps_links(m.revoke_leased_tenant(p)),
        m.revoke_tenant(p).permissions.len() == m.permissions.len(),
        m.revoke_leased_tenant(p).permissions.len() == m.permissions.len(),
        m.links_wf() ==> forall|q: Permission|
            (m.permission(q) is Some <==> #[trigger] m.revoke_tenant(p).permission(q) is Some),
        m.links_wf() ==> (m.permission(p) is Some && !m.canceled(p) ==> !m.revoke_tenant(p).canceled(p)
            && m.revoke_tenant(p).tenant(p) is None && m.revoke_tenant(p).permission(p).unwrap().kind
            == m.permission(p).unwrap().kind && m.revoke_tenant(p).permission(p).unwrap().lessor
            == m.permission(p).unwrap().lessor),
{
    crate::step::shape::lemma_revoke_keeps(m, p);
    if m.links_wf() {
        match m.tenant(p) {
            Some(t) => {
                lemma_revoke_links(m, t);
                assert(entry_linked(m.permissions, p));
                lemma_revoke_at(m, t, p);
                if exists|n: nat| nth_tenant(m.permissions, t, n) == Some(p) {
                    let n = choose|n: nat| nth_tenant(m.permissions, t, n) == Some(p);
                    crate::step::links::lemma_cancel_chain_reaches(m.permissions, t, m.pc(), n);
                }
            },
            None => {},
        }
    }
}

/// Revoking the tenants of a list of permissions keeps the links well
/// formed.
pub proof fn lemma_revoke_tenants_keep(m: MachineModel, permissions: Seq<Permission>, from: int)
    ensures
        m.keeps_links(m.revoke_tenants(permissions, from)),
        m.keeps_links(m.revoke_leased_tenants(permissions, from)),
        m.revoke_tenants(permissions, from).permissions.len() == m.permissions.len(),
        m.revoke_leased_tenants(permissions, from).permissions.len() == m.permissions.len(),
    decreases permissions.len() - from,
{
    if 0 <= from < permissions.len() {
        lemma_revoke_tenant_keeps(m, permissions[from]);
        lemma_revoke_tenants_keep(m.revoke_tenant(permissions[from]), permissions, from + 1);
        lemma_revoke_tenants_keep(m.revoke_leased_tenant(permissions[from]), permissions, from + 1);
    }
}

/// Storing into a slot keeps the links well formed.
pub proof fn lemma_write_slot_keeps(m: MachineModel, address: SlotAddress, slot: Slot)
    ensures
        m.keeps_links(m.write_slot(address, slot)),
        m.write_slot(address, slot).permissions.len() == m.permissions.len(),
{
    match m.slot_at(address) {
        Some(occupant) => {
            lemma_revoke_tenant_keeps(m, occupant.permission);
        },
        None => {},
    }
    let revoked = match m.slot_at(address) {
        Some(occupant) => match m.permission(occupant.permission) {
            Some(data) => if data.spec_exclusive() {
                m.revoke_tenant(occupant.permission)
            } else {
                m
            },
            None => m,
        },
        None => m,
    };
    assert(revoked.set_slot(address, slot).permissions == revoked.permissions);
}

/// Clearing slots of the top frame keeps the links well formed.
pub proof fn lemma_clear_from_keeps(m: MachineModel, from: int)
    ensures
        m.keeps_links(m.clear_from(from)),
        m.clear_from(from).permissions.len() == m.permissions.len(),
    decreases
        (match m.top_frame() {
            Some(frame) => frame.variables.len() - from,
            None => 0,
        }),
{
    match m.top_frame() {
        Some(frame) => if 0 <= from < frame.variables.len() {
            let local = LocalVariable { index: from as usize };
            lemma_write_slot_keeps(m, SlotAddress::Local(local), None);
            let cleared = m.clear(local);
            if cleared.top_frame() is Some && cleared.top_frame().unwrap().variables.len()
                == frame.variables.len() {
                lemma_clear_from_keeps(cleared, from + 1);
            }
        },
        None => {},
    }
}

/// Borrowing allocates one permission, and borrowing a value whose
/// permission is allocated and not canceled keeps the links well formed.
pub proof fn lemma_borrow_value_links(m: MachineModel, value: Value, kind: PermissionKind)
    requires
        kind == PermissionKind::Leased || kind == PermissionKind::Shared,
    ensures
        m.borrow_value(value, kind).0.permissions.len() == m.permissions.len() + 1,
        m.permission(value.permission) is Some && !m.permission(value.permission).unwrap().canceled
            ==> m.keeps_links(m.borrow_value(value, kind).0),
{
    let p = value.permission;
    let data = PermissionData::spec_borrowed(kind, p);
    let (m1, t) = m.new_permission(data);
    let after = m1.install_tenant(p, t);
    crate::step::shape::lemma_revoke_keeps(m1, p);
    if m.links_wf() && after.permissions.len() <= usize::MAX && m.permission(p) is Some
        && !m.permission(p).unwrap().canceled {
        assert(t.index == m.permissions.len());
        assert(entry_linked(m.permissions, p));
        // Revoking the prior tenant in the longer table does what it does in
        // the table without the new permission.
        let revoked = m.revoke_tenant(p);
        lemma_revoke_tenant_keeps(m, p);
        assert(m1.revoke_tenant(p).permissions == revoked.permissions.push(Some(data))) by {
            match m.tenant(p) {
                Some(old) => {
                    assert(m1.tenant(p) == Some(old));
                    assert(entry_linked(m.permissions, old));
                    assert(m1.detach(old).permissions =~= m.detach(old).permissions.push(Some(data)));
                    lemma_detached_linked_enough(m, old);
                    lemma_cancel_chain_push_weak(m.detach(old).permissions, Some(data), old, m.pc());
                    assert(m1.pc() == m.pc());
                },
                None => {
                    assert(m1.tenant(p) is None);
                },
            }
        }
        let m2 = m1.revoke_tenant(p);
        let dp = m2.permissions[p.index as int].unwrap();
        let dt = m2.permissions[t.index as int].unwrap();
        let linked = m2.set_permission(p, PermissionData { tenant: Some(t), ..dp });
        assert(after == linked.set_permission(t, PermissionData { lessor: Some(p), ..dt }));
        assert forall|q: Permission| q.index < after.permissions.len() implies #[trigger] entry_linked(
            after.permissions,
            q,
        ) by {
            if q.index < m.permissions.len() {
                assert(entry_linked(revoked.permissions, q));
                match revoked.permissions[q.index as int] {
                    Some(d) => {
                        match d.tenant {
                            Some(x) => {
                                assert(entry_linked(revoked.permissions, x));
                            },
                            None => {},
                        }
                        match d.lessor {
                            Some(l) => {
                                assert(entry_linked(revoked.permissions, l));
                            },
                            None => {},
                        }
                    },
                    None => {},
                }
            }
        }
    }
}

/// After a permission has been detached from its lessor, the tenants of the
/// table still have greater handles than their lessors and are allocated.
proof fn lemma_detached_linked_enough(m: MachineModel, x: Permission)
    requires
        m.links_wf(),
    ensures
        tenants_ordered(m.detach(x).permissions),
{
    let d = m.detach(x).permissions;
    assert forall|q: Permission| q.index < d.len() implies #[trigger] tenant_ordered(d, q) by {
        assert(entry_linked(m.permissions, q));
    }
}

/// The tenant of `q`, if it has one, has a greater handle and is within the
/// table.
pub open spec fn tenant_ordered(permissions: Seq<Option<PermissionData>>, q: Permission) -> bool {
    match permissions[q.index as int] {
        Some(data) => match data.tenant {
            Some(t) => q.index < t.index < permissions.len(),
            None => true,
        },
        None => true,
    }
}

/// Every tenant of the table has a greater handle than its lessor and is
/// within the table.
pub open spec fn tenants_ordered(permissions: Seq<Option<PermissionData>>) -> bool {
    forall|q: Permission| q.index < permissions.len() ==> #[trigger] tenant_ordered(permissions, q)
}

/// Canceling a chain in a table that has one more entry at its end does what
/// it does in the table without it, if every tenant is within the table.
proof fn lemma_cancel_chain_push_weak(
    permissions: Seq<Option<PermissionData>>,
    entry: Option<PermissionData>,
    x: Permission,
    at: Option<ProgramCounter>,
)
    requires
        tenants_ordered(permissions),
        x.index < permissions.len(),
    ensures
        cancel_chain(permissions.push(entry), x, at) == cancel_chain(permissions, x, at).push(entry),
    decreases permissions.len() - x.index,
{
    let longer = permissions.push(entry);
    crate::step::links::lemma_cancel_chain_below(permissions, x, at);
    crate::step::links::lemma_cancel_chain_below(longer, x, at);
    match permissions[x.index as int] {
        Some(data) => {
            assert(tenant_ordered(permissions, x));
            crate::step::links::lemma_cancel_chain_unfold(permissions, x, at);
            crate::step::links::lemma_cancel_chain_unfold(longer, x, at);
            match data.tenant {
                Some(t) => {
                    lemma_cancel_chain_push_weak(permissions, entry, t, at);
                    crate::step::links::lemma_cancel_chain_below(permissions, t, at);
                },
                None => {},
            }
            assert(cancel_chain(longer, x, at) =~= cancel_chain(permissions, x, at).push(entry));
        },
        None => {
            assert(cancel_chain(longer, x, at) =~= cancel_chain(permissions, x, at).push(entry));
        },
    }
}

/// Resolving a place to an object keeps the links well formed, and the
/// permission of what it finds is allocated and not canceled.
pub proof fn lemma_traverse_to_object_links(m: MachineModel, db: &Db, code: &BirRecord, place: Place)
    ensures
        m.keeps_links(m.traverse_to_object(db, code, place).0),
        m.traverse_to_object(db, code, place).0.permissions.len() <= usize::MAX ==> (m.traverse_to_object(
            db,
            code,
            place,
        ).1 matches Ok(t) ==> !m.traverse_to_object(db, code, place).0.canceled(t.value.permission)),
    decreases place.index,
{
    if place.index < code.data.tables.places@.len() {
        match code.data.tables.places@[place.index as int] {
            crate::bir::PlaceData::Function(f) => {
                lemma_new_value_links(m, ObjectModel::Function(f), PermissionData::spec_our());
            },
            crate::bir::PlaceData::Class(c) => {
                lemma_new_value_links(m, ObjectModel::Class(c), PermissionData::spec_our());
            },
            crate::bir::PlaceData::Intrinsic(i) => {
                lemma_new_value_links(m, ObjectModel::Intrinsic(i), PermissionData::spec_our());
            },
            crate::bir::PlaceData::Dot(base, name) => {
                if base.index < place.index {
                    lemma_traverse_to_object_links(m, db, code, base);
                }
            },
            _ => {},
        }
    }
}

/// Reading a place keeps the links well formed.
pub proof fn lemma_read_place_links(m: MachineModel, db: &Db, code: &BirRecord, place: Place)
    ensures
        m.keeps_links(m.read_place(db, code, place).0),
        m.keeps_links(m.peek_place(db, code, place).0),
{
    lemma_traverse_to_object_links(m, db, code, place);
    let (m1, r) = m.traverse_to_object(db, code, place);
    match r {
        Ok(t) => {
            lemma_revoke_tenants_keep(m1, t.traversed, 0);
        },
        Err(_) => {},
    }
}

/// Giving, sharing and leasing keep the links well formed.
pub proof fn lemma_give_share_lease_links(
    m: MachineModel,
    db: &Db,
    code: &BirRecord,
    place: Place,
    clearing: bool,
)
    ensures
        m.keeps_links(m.give_place(db, code, place, clearing).0),
        m.keeps_links(m.share_place(db, code, place).0),
        m.keeps_links(m.lease_place(db, code, place).0),
{
    lemma_traverse_to_object_links(m, db, code, place);
    let (m1, r) = m.traverse_to_object(db, code, place);
    match r {
        Ok(t) => {
            match t.origin {
                Some(address) => {
                    assert(m1.set_slot(address, None).permissions == m1.permissions);
                },
                None => {},
            }
            lemma_revoke_tenants_keep(m1, t.traversed, 0);
            let m2 = m1.revoke_leased_tenants(t.traversed, 0);
            lemma_borrow_value_links(m2, t.value, PermissionKind::Shared);
            match m2.permission(t.value.permission) {
                Some(data) => {
                    if !data.canceled {
                        let demoted = m2.set_permission(
                            t.value.permission,
                            PermissionData { kind: PermissionKind::Our, ..data },
                        );
                        if m2.links_wf() && data.kind == PermissionKind::My {
                            assert forall|q: Permission| q.index < demoted.permissions.len() implies #[trigger] entry_linked(
                                demoted.permissions,
                                q,
                            ) by {
                                assert(entry_linked(m2.permissions, q));
                                assert(entry_linked(m2.permissions, t.value.permission));
                                match m2.permissions[q.index as int] {
                                    Some(d) => {
                                        match d.tenant {
                                            Some(x) => {
                                                assert(entry_linked(m2.permissions, x));
                                            },
                                            None => {},
                                        }
                                        match d.lessor {
                                            Some(l) => {
                                                assert(entry_linked(m2.permissions, l));
                                            },
                                            None => {},
                                        }
                                    },
                                    None => {},
                                }
                            }
                        }
                    }
                },
                None => {},
            }
            lemma_borrow_value_links(m1, t.value, PermissionKind::Leased);
        },
        Err(_) => {},
    }
}

/// Giving several places keeps the links well formed.
pub proof fn lemma_give_places_links(
    m: MachineModel,
    db: &Db,
    code: &BirRecord,
    places: Seq<Place>,
    from: int,
    given: Seq<Slot>,
)
    ensures
        m.keeps_links(m.give_places(db, code, places, from, given).0),
    decreases places.len() - from,
{
    if 0 <= from < places.len() {
        lemma_give_share_lease_links(m, db, code, places[from], false);
        let (m1, r) = m.give_place(db, code, places[from], false);
        match r {
            Ok(value) => {
                lemma_give_places_links(m1, db, code, places, from + 1, given.push(Some(value)));
            },
            Err(_) => {},
        }
    }
}

/// Assigning to a place keeps the links well formed.
pub proof fn lemma_assign_place_links(
    m: MachineModel,
    db: &Db,
    code: &BirRecord,
    target: TargetPlace,
    value: Value,
)
    ensures
        m.keeps_links(m.assign_place(db, code, target, value).0),
{
    if target.index < code.data.tables.target_places@.len() {
        match code.data.tables.target_places@[target.index as int] {
            crate::bir::TargetPlaceData::Dot(base, name) => {
                lemma_traverse_to_object_links(m, db, code, base);
            },
            _ => {},
        }
    }
    let (m1, r) = m.traverse_to_place(db, code, target);
    match r {
        Ok(t) => {
            lemma_revoke_tenants_keep(m1, t.traversed, 0);
            let m2 = m1.revoke_tenants(t.traversed, 0);
            lemma_write_slot_keeps(m2, t.address, Some(value));
        },
        Err(_) => {},
    }
}

/// Concatenating keeps the links well formed.
pub proof fn lemma_concatenate_links(
    m: MachineModel,
    db: &Db,
    code: &BirRecord,
    places: Seq<Place>,
    from: int,
    text: Seq<char>,
)
    ensures
        m.keeps_links(m.concatenate(db, code, places, from, text).0),
    decreases places.len() - from,
{
    if 0 <= from < places.len() {
        lemma_read_place_links(m, db, code, places[from]);
        let (m1, r) = m.read_place(db, code, places[from]);
        match r {
            Ok(object) => match m1.object(object) {
                Some(data) => match display_text(data) {
                    Some(part) => {
                        lemma_concatenate_links(m1, db, code, places, from + 1, text + part);
                    },
                    None => {},
                },
                None => {},
            },
            Err(_) => {},
        }
    }
}

/// Evaluating an expression keeps the links well formed.
pub proof fn lemma_eval_expr_links(m: MachineModel, db: &Db, code: &BirRecord, expr: Expr)
    ensures
        m.keeps_links(m.eval_expr(db, code, expr).0),
{
    match code.data.tables.exprs@[expr.index as int] {
        ExprData::BooleanLiteral(b) => {
            lemma_new_value_links(m, ObjectModel::Bool(b), PermissionData::spec_our());
        },
        ExprData::SignedIntegerLiteral(n) => {
            lemma_new_value_links(m, ObjectModel::Int(n), PermissionData::spec_our());
        },
        ExprData::UnsignedIntegerLiteral(n) => {
            lemma_new_value_links(m, ObjectModel::Uint(n), PermissionData::spec_our());
        },
        ExprData::IntegerLiteral(n) => {
            lemma_new_value_links(m, ObjectModel::Uint(n), PermissionData::spec_our());
        },
        ExprData::FloatLiteral(bits) => {
            lemma_new_value_links(m, ObjectModel::Float(bits), PermissionData::spec_our());
        },
        ExprData::StringLiteral(word) => {
            lemma_new_value_links(m, ObjectModel::String(word.text(db)), PermissionData::spec_our());
        },
        ExprData::Unit => {
            lemma_new_value_links(m, ObjectModel::Unit, PermissionData::spec_our());
        },
        ExprData::IntoShared(place) => {
            lemma_give_share_lease_links(m, db, code, place, false);
        },
        ExprData::Share(place) => {
            lemma_give_share_lease_links(m, db, code, place, false);
        },
        ExprData::Lease(place) => {
            lemma_give_share_lease_links(m, db, code, place, false);
        },
        ExprData::Give(place) => {
            lemma_give_share_lease_links(m, db, code, place, false);
        },
        ExprData::Tuple(places) => {
            lemma_give_places_links(m, db, code, places@, 0, seq![]);
            let (m1, r) = m.give_places(db, code, places@, 0, seq![]);
            match r {
                Ok(fields) => {
                    lemma_new_value_links(m1, ObjectModel::Tuple { fields }, PermissionData::spec_my());
                },
                Err(_) => {},
            }
        },
        ExprData::Concatenate(places) => {
            lemma_concatenate_links(m, db, code, places@, 0, Seq::empty());
            let (m1, r) = m.concatenate(db, code, places@, 0, Seq::empty());
            match r {
                Ok(text) => {
                    lemma_new_value_links(m1, ObjectModel::String(text), PermissionData::spec_our());
                },
                Err(_) => {},
            }
        },
        ExprData::Op(lhs, op, rhs) => {
            lemma_read_place_links(m, db, code, lhs);
            let (m1, r) = m.read_place(db, code, lhs);
            lemma_read_place_links(m1, db, code, rhs);
            let (m2, r2) = m1.read_place(db, code, rhs);
            match (r, r2) {
                (Ok(left), Ok(right)) => match (m2.object(left), m2.object(right)) {
                    (Some(l), Some(r)) => match crate::step::apply_op::apply_op_spec(op, l, r) {
                        Ok(data) => {
                            lemma_new_value_links(m2, data, PermissionData::spec_our());
                        },
                        Err(_) => {},
                    },
                    _ => {},
                },
                _ => {},
            }
        },
        ExprData::Unary(op, rhs) => {
            lemma_read_place_links(m, db, code, rhs);
            let (m1, r) = m.read_place(db, code, rhs);
            match r {
                Ok(right) => match m1.object(right) {
                    Some(r) => match crate::step::apply_op::apply_unary_spec(op, r) {
                        Ok(data) => {
                            lemma_new_value_links(m1, data, PermissionData::spec_our());
                        },
                        Err(_) => {},
                    },
                    None => {},
                },
                Err(_) => {},
            }
        },
        ExprData::Error => {},
    }
}

/// Executing the action of a statement keeps the links well formed.
pub proof fn lemma_step_statement_links(
    m: MachineModel,
    db: &Db,
    code: &BirRecord,
    point: ControlPoint,
    action: ActionData,
    host_ok: bool,
)
    ensures
        m.keeps_links(m.step_statement(db, code, point, action, host_ok).0),
{
    match action {
        ActionData::AssignExpr(target, expr) => {
            lemma_eval_expr_links(m, db, code, expr);
            let (m1, r) = m.eval_expr(db, code, expr);
            match r {
                Ok(value) => {
                    lemma_assign_place_links(m1, db, code, target, value);
                },
                Err(_) => {},
            }
        },
        ActionData::Clear(local) => {
            lemma_write_slot_keeps(m, SlotAddress::Local(local), None);
        },
        ActionData::BreakpointEnd(_, _, _, place) => {
            match place {
                Some(place) => {
                    lemma_read_place_links(m, db, code, place);
                },
                None => {},
            }
        },
        _ => {},
    }
}

/// Calling keeps the links well formed.
pub proof fn lemma_call_links(
    m: MachineModel,
    db: &Db,
    code: &BirRecord,
    point: ControlPoint,
    function: Place,
    arguments: Seq<Place>,
    labels: Seq<Option<Name>>,
)
    ensures
        m.keeps_links(m.call(db, code, point, function, arguments, labels).0),
{
    lemma_read_place_links(m, db, code, function);
    let (m1, r) = m.read_place(db, code, function);
    match r {
        Ok(object) => match m1.object(object) {
            Some(data) => match callee_of(data) {
                Some(callee) => match parameter_names(db, callee) {
                    Some(expected) => {
                        lemma_give_places_links(m1, db, code, arguments, 0, seq![]);
                        let (m2, r2) = m1.give_places(db, code, arguments, 0, seq![]);
                        match r2 {
                            Ok(given) => {
                                match callee {
                                    Callee::Class(class) => {
                                        lemma_new_value_links(
                                            m2,
                                            ObjectModel::Instance { class, fields: given },
                                            PermissionData::spec_my(),
                                        );
                                    },
                                    Callee::Function(f) => {
                                        lemma_new_value_links(
                                            m2,
                                            ObjectModel::Thunk {
                                                callee: crate::model::ThunkCallee::Function(f),
                                                arguments: given,
                                            },
                                            PermissionData::spec_my(),
                                        );
                                    },
                                    Callee::Intrinsic(i) => {
                                        lemma_new_value_links(
                                            m2,
                                            ObjectModel::Thunk {
                                                callee: crate::model::ThunkCallee::Intrinsic(i),
                                                arguments: given,
                                            },
                                            PermissionData::spec_my(),
                                        );
                                    },
                                }
                            },
                            Err(_) => {},
                        }
                    },
                    None => {},
                },
                None => {},
            },
            None => {},
        },
        Err(_) => {},
    }
}

/// Collecting keeps the links well formed.
pub proof fn lemma_gc_links(m: MachineModel, extra: Seq<Value>)
    ensures
        m.keeps_links(m.gc(extra)),
        m.gc(extra).permissions.len() == m.permissions.len(),
{
    let after = m.gc(extra);
    if m.links_wf() && m.permissions.len() <= usize::MAX {
        assert forall|p: Permission| p.index < after.permissions.len() implies #[trigger] entry_linked(
            after.permissions,
            p,
        ) by {
            assert(entry_linked(m.permissions, p));
            if m.live_permissions(extra)[p.index as int] {
                assert(m.reachable(extra, Node::Permission(Permission { index: p.index as int as usize })));
                match m.permissions[p.index as int] {
                    Some(data) => {
                        match data.lessor {
                            Some(l) => {
                                if !data.canceled {
                                    assert(m.edge(Node::Permission(p), Node::Permission(l)));
                                    lemma_reachable_step(m, extra, Node::Permission(p), Node::Permission(l));
                                    assert(m.live_permissions(extra)[l.index as int]);
                                    assert(entry_linked(m.permissions, l));
                                }
                            },
                            None => {},
                        }
                        match data.tenant {
                            Some(t) => {
                                assert(entry_linked(m.permissions, t));
                            },
                            None => {},
                        }
                    },
                    None => {},
                }
            }
        }
    }
}

/// Resuming a frame keeps the links well formed.
pub proof fn lemma_resume_with_links(m: MachineModel, db: &Db, value: Value)
    ensures
        m.keeps_links(m.resume_with(db, value).0),
{
    match m.top_frame() {
        Some(frame) => match frame.awaiting(db) {
            Some((target, next)) => {
                lemma_assign_place_links(m, db, &frame.pc.bir.record(db), target, value);
            },
            None => {},
        },
        None => {},
    }
}

/// Returning from a frame keeps the links well formed.
pub proof fn lemma_return_value_links(m: MachineModel, db: &Db, pc: ProgramCounter, value: Value)
    ensures
        m.keeps_links(m.return_value(db, pc, value).0),
{
    lemma_clear_from_keeps(m, 0);
    let m1 = m.clear_frame();
    lemma_gc_links(m1, seq![value]);
    let m3 = m1.gc(seq![value]).pop_frame();
    lemma_resume_with_links(m3, db, value);
}

/// Executing a terminator keeps the links well formed.
pub proof fn lemma_step_terminator_links(
    m: MachineModel,
    db: &Db,
    code: &BirRecord,
    pc: ProgramCounter,
    point: ControlPoint,
)
    ensures
        m.keeps_links(m.step_terminator(db, code, pc, point).0),
{
    match code.data.tables.control_points@[point.index as int] {
        ControlPointData::Terminator(TerminatorData::If(place, if_true, if_false)) => {
            lemma_read_place_links(m, db, code, place);
        },
        ControlPointData::Terminator(
            TerminatorData::Assign(destination, TerminatorExpr::Call { function, arguments, labels }, next),
        ) => {
            lemma_call_links(m, db, code, point, function, arguments@, labels@);
            let (m1, r) = m.call(db, code, point, function, arguments@, labels@);
            match r {
                Ok(CallResult::Returned(value)) => {
                    lemma_assign_place_links(m1, db, code, destination, value);
                },
                _ => {},
            }
        },
        ControlPointData::Terminator(TerminatorData::Assign(_, TerminatorExpr::Await(place), _)) => {
            lemma_give_share_lease_links(m, db, code, place, false);
            let (m1, r) = m.give_place(db, code, place, false);
            match r {
                Ok(value) => {
                    crate::step::shape::lemma_empty_slots_keeps(m1, value.object, 0);
                },
                Err(_) => {},
            }
        },
        ControlPointData::Terminator(TerminatorData::Return(place)) => {
            lemma_give_share_lease_links(m, db, code, place, true);
            let (m1, r) = m.give_place(db, code, place, true);
            match r {
                Ok(value) => {
                    lemma_return_value_links(m1, db, pc, value);
                },
                Err(_) => {},
            }
        },
        _ => {},
    }
}

/// A step keeps the links among the permissions well formed.
pub proof fn lemma_step_links(m: MachineModel, db: &Db, host_ok: bool)
    ensures
        m.keeps_links(m.step(db, host_ok).0),
{
    let frame = m.stack.last();
    let pc = frame.pc;
    let code = pc.bir.record(db);
    let point = frame.point(db).unwrap();
    match code.data.tables.control_points@[point.index as int] {
        ControlPointData::Statement(s) => {
            lemma_step_statement_links(m, db, &code, point, s.action, host_ok);
            let (m1, r) = m.step_statement(db, &code, point, s.action, host_ok);
            match r {
                Ok(()) => {
                    let m2 = m1.set_pc(ProgramCounter { statement: (pc.statement + 1) as usize, ..pc });
                    lemma_gc_links(m2, seq![]);
                },
                Err(_) => {},
            }
        },
        ControlPointData::Terminator(_) => {
            lemma_step_terminator_links(m, db, &code, pc, point);
            let (m1, r) = m.step_terminator(db, &code, pc, point);
            match r {
                Ok(flow) => {
                    lemma_gc_links(m1, pinned(flow));
                },
                Err(_) => {},
            }
        },
    }
}

} // verus!
