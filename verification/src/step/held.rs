//! Nothing that the machine holds dangles: the values in the slots of the
//! frames, in flight and in the slots of the objects refer to objects and
//! permissions that are allocated, and a step keeps it so.
use vstd::prelude::*;
use crate::bir::{
    ActionData, BirRecord, ControlPoint, ControlPointData, Expr, ExprData, LocalVariable, Name, Place,
    TargetPlace, TerminatorData, TerminatorExpr,
};
use crate::db::Db;
use crate::model::{
    FrameModel, MachineModel, Object, ObjectModel, Permission, PermissionData, PermissionKind,
    ProgramCounter, Slot, Value,
};
use crate::step::await_thunk::AwaitResultModel;
use crate::step::call::{callee_of, parameter_names, CallResult, Callee};
use crate::step::eval::{display_text, pinned, slot_values, ControlFlowModel};
use crate::step::gc::{lemma_reachable_step, lemma_root_reachable, Node};
use crate::step::links::lemma_cancel_chain_only_cancels;
use crate::step::revoke::cancel_chain;
use crate::step::shape::lemma_revoke_keeps;
use crate::step::traversal::SlotAddress;

verus! {

impl MachineModel {
    /// The object and the permission of `value` are allocated.
    pub open spec fn allocated(self, value: Value) -> bool {
        self.object(value.object) is Some && self.permission(value.permission) is Some
    }

    /// What `slot` holds, if anything, is allocated.
    pub open spec fn slot_allocated(self, slot: Slot) -> bool {
        match slot {
            Some(value) => self.allocated(value),
            None => true,
        }
    }

    /// What the slots hold is allocated.
    pub open spec fn slots_allocated(self, slots: Seq<Slot>) -> bool {
        forall|k: int| 0 <= k < slots.len() ==> self.slot_allocated(#[trigger] slots[k])
    }

    /// What entry `o` of the heap holds in its slots is allocated.
    pub open spec fn entry_allocated(self, o: int) -> bool {
        match self.objects[o] {
            Some(data) => self.slots_allocated(data.slots()),
            None => true,
        }
    }

    /// What frame `f` holds is allocated.
    pub open spec fn frame_allocated(self, f: int) -> bool {
        self.slots_allocated(self.stack[f].variables) && self.slot_allocated(
            self.stack[f].in_flight_value,
        )
    }

    /// Nothing that the machine holds dangles.
    pub open spec fn holds_allocated(self) -> bool {
        &&& forall|f: int| 0 <= f < self.stack.len() ==> #[trigger] self.frame_allocated(f)
        &&& forall|o: int| 0 <= o < self.objects.len() ==> #[trigger] self.entry_allocated(o)
    }

    /// Whatever is allocated in this machine is allocated in `after`.
    pub open spec fn extended_by(self, after: MachineModel) -> bool {
        &&& forall|o: Object| self.object(o) is Some ==> #[trigger] after.object(o) is Some
        &&& forall|p: Permission| self.permission(p) is Some ==> #[trigger] after.permission(p) is Some
    }

    /// `after` allocates whatever this machine allocates, and if nothing that
    /// this machine holds dangles and the tables of `after` are no longer than
    /// a table can be, nothing that `after` holds dangles.
    pub open spec fn keeps_held(self, after: MachineModel) -> bool {
        &&& self.extended_by(after)
        &&& after.objects.len() >= self.objects.len()
        &&& after.permissions.len() >= self.permissions.len()
        &&& self.holds_allocated() && after.fits() ==> after.holds_allocated()
    }

    /// The tables are no longer than a table can be.
    pub open spec fn fits(self) -> bool {
        self.objects.len() <= usize::MAX && self.permissions.len() <= usize::MAX
    }
}

/// What was allocated stays allocated in a machine that extends another.
pub proof fn lemma_extended_slots(m: MachineModel, after: MachineModel, slots: Seq<Slot>)
    requires
        m.extended_by(after),
        m.slots_allocated(slots),
    ensures
        after.slots_allocated(slots),
{
    assert forall|k: int| 0 <= k < slots.len() implies after.slot_allocated(#[trigger] slots[k]) by {
        assert(m.slot_allocated(slots[k]));
    }
}

/// A machine that differs from another in its permissions alone, and that
/// allocates the permissions that the other allocates, holds nothing that
/// dangles if the other does not.
pub proof fn lemma_permissions_only(m: MachineModel, after: MachineModel)
    requires
        after.stack == m.stack,
        after.objects == m.objects,
        after.permissions.len() >= m.permissions.len(),
        forall|p: Permission| m.permission(p) is Some ==> #[trigger] after.permission(p) is Some,
    ensures
        m.keeps_held(after),
{
    if m.holds_allocated() {
        assert forall|f: int| 0 <= f < after.stack.len() implies #[trigger] after.frame_allocated(f) by {
            assert(m.frame_allocated(f));
            lemma_extended_slots(m, after, m.stack[f].variables);
        }
        assert forall|o: int| 0 <= o < after.objects.len() implies #[trigger] after.entry_allocated(o) by {
            assert(m.entry_allocated(o));
            match m.objects[o] {
                Some(data) => {
                    lemma_extended_slots(m, after, data.slots());
                },
                None => {},
            }
        }
    }
}

/// Revoking keeps what is held.
pub proof fn lemma_revoke_held(m: MachineModel, p: Permission)
    ensures
        m.keeps_held(m.revoke(p)),
        m.keeps_held(m.revoke_tenant(p)),
        m.keeps_held(m.revoke_leased_tenant(p)),
{
    lemma_revoke_one_held(m, p);
    match m.tenant(p) {
        Some(t) => {
            lemma_revoke_one_held(m, t);
        },
        None => {},
    }
    lemma_permissions_only(m, m);
}

proof fn lemma_revoke_one_held(m: MachineModel, p: Permission)
    ensures
        m.keeps_held(m.revoke(p)),
{
    lemma_revoke_keeps(m, p);
    let d = m.detach(p);
    lemma_cancel_chain_only_cancels(d.permissions, p, m.pc());
    let r = cancel_chain(d.permissions, p, m.pc());
    assert forall|q: Permission| m.permission(q) is Some implies #[trigger] m.revoke(p).permission(
        q,
    ) is Some by {
        assert(r[q.index as int] == d.permissions[q.index as int] || d.permissions[q.index as int] is Some);
    }
    lemma_permissions_only(m, m.revoke(p));
}

/// Revoking the tenants of a list of permissions keeps what is held.
pub proof fn lemma_revoke_tenants_held(m: MachineModel, permissions: Seq<Permission>, from: int)
    ensures
        m.keeps_held(m.revoke_tenants(permissions, from)),
        m.keeps_held(m.revoke_leased_tenants(permissions, from)),
        m.revoke_tenants(permissions, from).objects.len() == m.objects.len(),
        m.revoke_leased_tenants(permissions, from).objects.len() == m.objects.len(),
        m.revoke_tenants(permissions, from).permissions.len() == m.permissions.len(),
        m.revoke_leased_tenants(permissions, from).permissions.len() == m.permissions.len(),
    decreases permissions.len() - from,
{
    if 0 <= from < permissions.len() {
        lemma_revoke_held(m, permissions[from]);
        lemma_revoke_keeps(m, permissions[from]);
        lemma_revoke_tenants_held(m.revoke_tenant(permissions[from]), permissions, from + 1);
        lemma_revoke_tenants_held(m.revoke_leased_tenant(permissions[from]), permissions, from + 1);
    } else {
        lemma_permissions_only(m, m);
    }
}

/// Storing what is allocated, or nothing, in a slot keeps what is held.
pub proof fn lemma_set_slot_held(m: MachineModel, address: SlotAddress, slot: Slot)
    requires
        m.slot_allocated(slot),
    ensures
        m.keeps_held(m.set_slot(address, slot)),
        m.set_slot(address, slot).objects.len() == m.objects.len(),
        m.set_slot(address, slot).permissions.len() == m.permissions.len(),
{
    let after = m.set_slot(address, slot);
    if m.holds_allocated() {
        assert forall|f: int| 0 <= f < after.stack.len() implies #[trigger] after.frame_allocated(f) by {
            assert(m.frame_allocated(f));
            assert forall|k: int| 0 <= k < after.stack[f].variables.len() implies after.slot_allocated(
                #[trigger] after.stack[f].variables[k],
            ) by {
                if after.stack[f].variables[k] != slot {
                    assert(m.slot_allocated(m.stack[f].variables[k]));
                }
            }
        }
        assert forall|o: int| 0 <= o < after.objects.len() implies #[trigger] after.entry_allocated(o) by {
            assert(m.entry_allocated(o));
            match after.objects[o] {
                Some(data) => {
                    assert forall|k: int| 0 <= k < data.slots().len() implies after.slot_allocated(
                        #[trigger] data.slots()[k],
                    ) by {
                        if data.slots()[k] != slot {
                            assert(m.slot_allocated(m.objects[o].unwrap().slots()[k]));
                        }
                    }
                },
                None => {},
            }
        }
    }
}

/// Storing into a slot, with what that revokes, keeps what is held.
pub proof fn lemma_write_slot_held(m: MachineModel, address: SlotAddress, slot: Slot)
    requires
        m.slot_allocated(slot),
    ensures
        m.keeps_held(m.write_slot(address, slot)),
        m.write_slot(address, slot).objects.len() == m.objects.len(),
        m.write_slot(address, slot).permissions.len() == m.permissions.len(),
{
    let revoked = match m.slot_at(address) {
        Some(occupant) => match m.permission(occupant.permission) {
            Some(data) => if data.spec_exclusive() {
                m.revoke_tenant(occupant.permission)
            } else {
                m
            },
            None => m,
        },
        None => m,
    };
    match m.slot_at(address) {
        Some(occupant) => {
            lemma_revoke_held(m, occupant.permission);
            lemma_revoke_keeps(m, occupant.permission);
        },
        None => {},
    }
    lemma_permissions_only(m, m);
    lemma_set_slot_held(revoked, address, slot);
}

/// Clearing slots of the top frame keeps what is held.
pub proof fn lemma_clear_from_held(m: MachineModel, from: int)
    ensures
        m.keeps_held(m.clear_from(from)),
        m.clear_from(from).objects.len() == m.objects.len(),
        m.clear_from(from).permissions.len() == m.permissions.len(),
    decreases
        (match m.top_frame() {
            Some(frame) => frame.variables.len() - from,
            None => 0,
        }),
{
    lemma_permissions_only(m, m);
    match m.top_frame() {
        Some(frame) => if 0 <= from < frame.variables.len() {
            let local = LocalVariable { index: from as usize };
            lemma_write_slot_held(m, SlotAddress::Local(local), None);
            let cleared = m.clear(local);
            if cleared.top_frame() is Some && cleared.top_frame().unwrap().variables.len()
                == frame.variables.len() {
                lemma_clear_from_held(cleared, from + 1);
            }
        },
        None => {},
    }
}

/// Allocating a value whose slots hold what is allocated keeps what is held,
/// and the value is allocated.
pub proof fn lemma_new_value_held(m: MachineModel, data: ObjectModel, permission: PermissionData)
    ensures
        m.slots_allocated(data.slots()) ==> m.keeps_held(m.new_value(data, permission).0),
        m.extended_by(m.new_value(data, permission).0),
        m.new_value(data, permission).0.objects.len() == m.objects.len() + 1,
        m.new_value(data, permission).0.permissions.len() == m.permissions.len() + 1,
        m.new_value(data, permission).0.fits() ==> m.new_value(data, permission).0.allocated(
            m.new_value(data, permission).1,
        ),
{
    let (after, value) = m.new_value(data, permission);
    if m.holds_allocated() && after.fits() && m.slots_allocated(data.slots()) {
        assert forall|f: int| 0 <= f < after.stack.len() implies #[trigger] after.frame_allocated(f) by {
            assert(m.frame_allocated(f));
            lemma_extended_slots(m, after, m.stack[f].variables);
        }
        assert forall|o: int| 0 <= o < after.objects.len() implies #[trigger] after.entry_allocated(o) by {
            if o < m.objects.len() {
                assert(m.entry_allocated(o));
                match m.objects[o] {
                    Some(d) => {
                        lemma_extended_slots(m, after, d.slots());
                    },
                    None => {},
                }
            } else {
                lemma_extended_slots(m, after, data.slots());
            }
        }
    }
}

/// Borrowing a value that is allocated keeps what is held, and the borrow is
/// allocated.
pub proof fn lemma_borrow_value_held(m: MachineModel, value: Value, kind: PermissionKind)
    ensures
        m.keeps_held(m.borrow_value(value, kind).0),
        m.borrow_value(value, kind).0.objects.len() == m.objects.len(),
        m.borrow_value(value, kind).0.permissions.len() == m.permissions.len() + 1,
        m.allocated(value) && m.borrow_value(value, kind).0.fits() ==> m.borrow_value(
            value,
            kind,
        ).0.allocated(m.borrow_value(value, kind).1),
{
    let p = value.permission;
    let (m1, t) = m.new_permission(PermissionData::spec_borrowed(kind, p));
    lemma_permissions_only(m, m1);
    lemma_revoke_held(m1, p);
    lemma_revoke_keeps(m1, p);
    let m2 = m1.revoke_tenant(p);
    let after = m1.install_tenant(p, t);
    assert(after.stack == m.stack);
    assert(after.objects == m.objects);
    assert forall|q: Permission| m.permission(q) is Some implies #[trigger] after.permission(q) is Some by {
        assert(m1.permission(q) is Some);
        assert(m2.permission(q) is Some);
    }
    lemma_permissions_only(m, after);
    if after.fits() {
        assert(m1.permission(t) is Some);
        assert(m2.permission(t) is Some);
    }
}

/// Resolving a place to an object keeps what is held, and finds what is
/// allocated.
pub proof fn lemma_traverse_to_object_held(m: MachineModel, db: &Db, code: &BirRecord, place: Place)
    ensures
        m.keeps_held(m.traverse_to_object(db, code, place).0),
        m.traverse_to_object(db, code, place).0.fits() ==> (m.traverse_to_object(db, code, place).1 matches Ok(
            t,
        ) ==> m.traverse_to_object(db, code, place).0.allocated(t.value)),
    decreases place.index,
{
    lemma_permissions_only(m, m);
    if place.index < code.data.tables.places@.len() {
        match code.data.tables.places@[place.index as int] {
            crate::bir::PlaceData::Function(f) => {
                lemma_new_value_held(m, ObjectModel::Function(f), PermissionData::spec_our());
            },
            crate::bir::PlaceData::Class(c) => {
                lemma_new_value_held(m, ObjectModel::Class(c), PermissionData::spec_our());
            },
            crate::bir::PlaceData::Intrinsic(i) => {
                lemma_new_value_held(m, ObjectModel::Intrinsic(i), PermissionData::spec_our());
            },
            crate::bir::PlaceData::Dot(base, name) => {
                if base.index < place.index {
                    lemma_traverse_to_object_held(m, db, code, base);
                }
            },
            _ => {},
        }
    }
}

/// Reading a place keeps what is held.
pub proof fn lemma_read_place_held(m: MachineModel, db: &Db, code: &BirRecord, place: Place)
    ensures
        m.keeps_held(m.read_place(db, code, place).0),
        m.keeps_held(m.peek_place(db, code, place).0),
        m.peek_place(db, code, place).0.fits() ==> m.peek_place(db, code, place).0.slot_allocated(
            m.peek_place(db, code, place).1,
        ),
{
    lemma_traverse_to_object_held(m, db, code, place);
    let (m1, r) = m.traverse_to_object(db, code, place);
    match r {
        Ok(t) => {
            lemma_revoke_tenants_held(m1, t.traversed, 0);
        },
        Err(_) => {},
    }
}

/// Giving, sharing and leasing keep what is held, and produce what is
/// allocated.
pub proof fn lemma_give_share_lease_held(
    m: MachineModel,
    db: &Db,
    code: &BirRecord,
    place: Place,
    clearing: bool,
)
    ensures
        m.keeps_held(m.give_place(db, code, place, clearing).0),
        m.keeps_held(m.share_place(db, code, place).0),
        m.keeps_held(m.lease_place(db, code, place).0),
        m.give_place(db, code, place, clearing).0.fits() ==> (m.give_place(db, code, place, clearing).1 matches Ok(
            v,
        ) ==> m.give_place(db, code, place, clearing).0.allocated(v)),
        m.share_place(db, code, place).0.fits() ==> (m.share_place(db, code, place).1 matches Ok(v)
            ==> m.share_place(db, code, place).0.allocated(v)),
        m.lease_place(db, code, place).0.fits() ==> (m.lease_place(db, code, place).1 matches Ok(v)
            ==> m.lease_place(db, code, place).0.allocated(v)),
{
    lemma_traverse_to_object_held(m, db, code, place);
    let (m1, r) = m.traverse_to_object(db, code, place);
    match r {
        Ok(t) => {
            match t.origin {
                Some(address) => {
                    lemma_set_slot_held(m1, address, None);
                },
                None => {},
            }
            lemma_revoke_tenants_held(m1, t.traversed, 0);
            let m2 = m1.revoke_leased_tenants(t.traversed, 0);
            lemma_borrow_value_held(m2, t.value, PermissionKind::Shared);
            lemma_borrow_value_held(m1, t.value, PermissionKind::Leased);
            match m2.permission(t.value.permission) {
                Some(data) => {
                    let demoted = m2.set_permission(
                        t.value.permission,
                        PermissionData { kind: PermissionKind::Our, ..data },
                    );
                    assert forall|q: Permission| m2.permission(q) is Some implies #[trigger] demoted.permission(
                        q,
                    ) is Some by {
                    }
                    lemma_permissions_only(m2, demoted);
                },
                None => {},
            }
        },
        Err(_) => {},
    }
}

/// Giving several places keeps what is held, and produces what is allocated.
pub proof fn lemma_give_places_held(
    m: MachineModel,
    db: &Db,
    code: &BirRecord,
    places: Seq<Place>,
    from: int,
    given: Seq<Slot>,
)
    requires
        m.slots_allocated(given),
    ensures
        m.keeps_held(m.give_places(db, code, places, from, given).0),
        m.give_places(db, code, places, from, given).0.fits() ==> (m.give_places(
            db,
            code,
            places,
            from,
            given,
        ).1 matches Ok(slots) ==> m.give_places(db, code, places, from, given).0.slots_allocated(slots)),
    decreases places.len() - from,
{
    lemma_permissions_only(m, m);
    if 0 <= from < places.len() {
        lemma_give_share_lease_held(m, db, code, places[from], false);
        let (m1, r) = m.give_place(db, code, places[from], false);
        match r {
            Ok(value) => {
                let next = given.push(Some(value));
                let result = m1.give_places(db, code, places, from + 1, next);
                if result.0.fits() || m1.fits() {
                    lemma_give_places_grow(m1, db, code, places, from + 1, next);
                }
                if m1.fits() {
                    lemma_extended_slots(m, m1, given);
                    assert forall|k: int| 0 <= k < next.len() implies m1.slot_allocated(
                        #[trigger] next[k],
                    ) by {
                        if k < given.len() {
                            assert(m1.slot_allocated(given[k]));
                        }
                    }
                    lemma_give_places_held(m1, db, code, places, from + 1, next);
                } else {
                    lemma_give_places_grow(m1, db, code, places, from + 1, next);
                    lemma_give_places_extend(m1, db, code, places, from + 1, next);
                }
            },
            Err(_) => {},
        }
    }
}

/// Giving several places allocates and reclaims nothing that was allocated.
pub proof fn lemma_give_places_grow(
    m: MachineModel,
    db: &Db,
    code: &BirRecord,
    places: Seq<Place>,
    from: int,
    given: Seq<Slot>,
)
    ensures
        m.give_places(db, code, places, from, given).0.objects.len() >= m.objects.len(),
        m.give_places(db, code, places, from, given).0.permissions.len() >= m.permissions.len(),
    decreases places.len() - from,
{
    if 0 <= from < places.len() {
        lemma_give_share_lease_held(m, db, code, places[from], false);
        let (m1, r) = m.give_place(db, code, places[from], false);
        match r {
            Ok(value) => {
                lemma_give_places_grow(m1, db, code, places, from + 1, given.push(Some(value)));
            },
            Err(_) => {},
        }
    }
}

/// Giving several places keeps allocated what was allocated.
pub proof fn lemma_give_places_extend(
    m: MachineModel,
    db: &Db,
    code: &BirRecord,
    places: Seq<Place>,
    from: int,
    given: Seq<Slot>,
)
    ensures
        m.extended_by(m.give_places(db, code, places, from, given).0),
    decreases places.len() - from,
{
    if 0 <= from < places.len() {
        lemma_give_share_lease_held(m, db, code, places[from], false);
        let (m1, r) = m.give_place(db, code, places[from], false);
        match r {
            Ok(value) => {
                lemma_give_places_extend(m1, db, code, places, from + 1, given.push(Some(value)));
            },
            Err(_) => {},
        }
    }
}

/// Assigning what is allocated keeps what is held.
pub proof fn lemma_assign_place_held(
    m: MachineModel,
    db: &Db,
    code: &BirRecord,
    target: TargetPlace,
    value: Value,
)
    requires
        m.allocated(value),
    ensures
        m.keeps_held(m.assign_place(db, code, target, value).0),
{
    lemma_permissions_only(m, m);
    if target.index < code.data.tables.target_places@.len() {
        match code.data.tables.target_places@[target.index as int] {
            crate::bir::TargetPlaceData::Dot(base, name) => {
                lemma_traverse_to_object_held(m, db, code, base);
            },
            _ => {},
        }
    }
    let (m1, r) = m.traverse_to_place(db, code, target);
    match r {
        Ok(t) => {
            lemma_revoke_tenants_held(m1, t.traversed, 0);
            let m2 = m1.revoke_tenants(t.traversed, 0);
            assert(m2.allocated(value));
            lemma_write_slot_held(m2, t.address, Some(value));
        },
        Err(_) => {},
    }
}

/// Concatenating keeps what is held.
pub proof fn lemma_concatenate_held(
    m: MachineModel,
    db: &Db,
    code: &BirRecord,
    places: Seq<Place>,
    from: int,
    text: Seq<char>,
)
    ensures
        m.keeps_held(m.concatenate(db, code, places, from, text).0),
    decreases places.len() - from,
{
    lemma_permissions_only(m, m);
    if 0 <= from < places.len() {
        lemma_read_place_held(m, db, code, places[from]);
        let (m1, r) = m.read_place(db, code, places[from]);
        match r {
            Ok(object) => match m1.object(object) {
                Some(data) => match display_text(data) {
                    Some(part) => {
                        lemma_concatenate_held(m1, db, code, places, from + 1, text + part);
                    },
                    None => {},
                },
                None => {},
            },
            Err(_) => {},
        }
    }
}

/// A primitive has no slots.
pub proof fn lemma_primitive_slots(op: crate::bir::Op, l: ObjectModel, r: ObjectModel)
    ensures
        crate::step::apply_op::apply_op_spec(op, l, r) matches Ok(data) ==> data.slots().len() == 0,
        crate::step::apply_op::apply_unary_spec(op, r) matches Ok(data) ==> data.slots().len() == 0,
{
}

/// Evaluating an expression keeps what is held, and produces what is
/// allocated.
pub proof fn lemma_eval_expr_held(m: MachineModel, db: &Db, code: &BirRecord, expr: Expr)
    ensures
        m.keeps_held(m.eval_expr(db, code, expr).0),
        m.eval_expr(db, code, expr).0.fits() ==> (m.eval_expr(db, code, expr).1 matches Ok(v)
            ==> m.eval_expr(db, code, expr).0.allocated(v)),
{
    lemma_permissions_only(m, m);
    match code.data.tables.exprs@[expr.index as int] {
        ExprData::BooleanLiteral(b) => {
            lemma_new_value_held(m, ObjectModel::Bool(b), PermissionData::spec_our());
        },
        ExprData::SignedIntegerLiteral(n) => {
            lemma_new_value_held(m, ObjectModel::Int(n), PermissionData::spec_our());
        },
        ExprData::UnsignedIntegerLiteral(n) => {
            lemma_new_value_held(m, ObjectModel::Uint(n), PermissionData::spec_our());
        },
        ExprData::IntegerLiteral(n) => {
            lemma_new_value_held(m, ObjectModel::Uint(n), PermissionData::spec_our());
        },
        ExprData::FloatLiteral(bits) => {
            lemma_new_value_held(m, ObjectModel::Float(bits), PermissionData::spec_our());
        },
        ExprData::StringLiteral(word) => {
            lemma_new_value_held(m, ObjectModel::String(word.text(db)), PermissionData::spec_our());
        },
        ExprData::Unit => {
            lemma_new_value_held(m, ObjectModel::Unit, PermissionData::spec_our());
        },
        ExprData::IntoShared(place) => {
            lemma_give_share_lease_held(m, db, code, place, false);
        },
        ExprData::Share(place) => {
            lemma_give_share_lease_held(m, db, code, place, false);
        },
        ExprData::Lease(place) => {
            lemma_give_share_lease_held(m, db, code, place, false);
        },
        ExprData::Give(place) => {
            lemma_give_share_lease_held(m, db, code, place, false);
        },
        ExprData::Tuple(places) => {
            lemma_give_places_held(m, db, code, places@, 0, seq![]);
            let (m1, r) = m.give_places(db, code, places@, 0, seq![]);
            match r {
                Ok(fields) => {
                    lemma_new_value_held(m1, ObjectModel::Tuple { fields }, PermissionData::spec_my());
                },
                Err(_) => {},
            }
        },
        ExprData::Concatenate(places) => {
            lemma_concatenate_held(m, db, code, places@, 0, Seq::empty());
            let (m1, r) = m.concatenate(db, code, places@, 0, Seq::empty());
            match r {
                Ok(text) => {
                    lemma_new_value_held(m1, ObjectModel::String(text), PermissionData::spec_our());
                },
                Err(_) => {},
            }
        },
        ExprData::Op(lhs, op, rhs) => {
            lemma_read_place_held(m, db, code, lhs);
            let (m1, r) = m.read_place(db, code, lhs);
            lemma_read_place_held(m1, db, code, rhs);
            let (m2, r2) = m1.read_place(db, code, rhs);
            match (r, r2) {
                (Ok(left), Ok(right)) => match (m2.object(left), m2.object(right)) {
                    (Some(l), Some(r)) => {
                        lemma_primitive_slots(op, l, r);
                        match crate::step::apply_op::apply_op_spec(op, l, r) {
                            Ok(data) => {
                                lemma_new_value_held(m2, data, PermissionData::spec_our());
                            },
                            Err(_) => {},
                        }
                    },
                    _ => {},
                },
                _ => {},
            }
        },
        ExprData::Unary(op, rhs) => {
            lemma_read_place_held(m, db, code, rhs);
            let (m1, r) = m.read_place(db, code, rhs);
            match r {
                Ok(right) => match m1.object(right) {
                    Some(r) => {
                        lemma_primitive_slots(op, r, r);
                        match crate::step::apply_op::apply_unary_spec(op, r) {
                            Ok(data) => {
                                lemma_new_value_held(m1, data, PermissionData::spec_our());
                            },
                            Err(_) => {},
                        }
                    },
                    None => {},
                },
                Err(_) => {},
            }
        },
        ExprData::Error => {},
    }
}

/// Executing the action of a statement keeps what is held.
pub proof fn lemma_step_statement_held(
    m: MachineModel,
    db: &Db,
    code: &BirRecord,
    point: ControlPoint,
    action: ActionData,
    host_ok: bool,
)
    ensures
        m.keeps_held(m.step_statement(db, code, point, action, host_ok).0),
{
    lemma_permissions_only(m, m);
    match action {
        ActionData::AssignExpr(target, expr) => {
            lemma_eval_expr_held(m, db, code, expr);
            let (m1, r) = m.eval_expr(db, code, expr);
            match r {
                Ok(value) => {
                    if m1.allocated(value) {
                        lemma_assign_place_held(m1, db, code, target, value);
                    } else {
                        lemma_assign_place_grows(m1, db, code, target, value);
                    }
                },
                Err(_) => {},
            }
        },
        ActionData::Clear(local) => {
            lemma_write_slot_held(m, SlotAddress::Local(local), None);
        },
        ActionData::BreakpointEnd(_, _, _, place) => {
            match place {
                Some(place) => {
                    lemma_read_place_held(m, db, code, place);
                },
                None => {},
            }
        },
        _ => {},
    }
}

/// Assigning allocates and reclaims nothing that was allocated.
pub proof fn lemma_assign_place_grows(
    m: MachineModel,
    db: &Db,
    code: &BirRecord,
    target: TargetPlace,
    value: Value,
)
    ensures
        m.extended_by(m.assign_place(db, code, target, value).0),
        m.assign_place(db, code, target, value).0.objects.len() >= m.objects.len(),
        m.assign_place(db, code, target, value).0.permissions.len() >= m.permissions.len(),
{
    lemma_permissions_only(m, m);
    if target.index < code.data.tables.target_places@.len() {
        match code.data.tables.target_places@[target.index as int] {
            crate::bir::TargetPlaceData::Dot(base, name) => {
                lemma_traverse_to_object_held(m, db, code, base);
            },
            _ => {},
        }
    }
    let (m1, r) = m.traverse_to_place(db, code, target);
    match r {
        Ok(t) => {
            lemma_revoke_tenants_held(m1, t.traversed, 0);
            let m2 = m1.revoke_tenants(t.traversed, 0);
            lemma_write_slot_grows(m2, t.address, Some(value));
        },
        Err(_) => {},
    }
}

/// Storing into a slot allocates and reclaims nothing.
pub proof fn lemma_write_slot_grows(m: MachineModel, address: SlotAddress, slot: Slot)
    ensures
        m.extended_by(m.write_slot(address, slot)),
        m.write_slot(address, slot).objects.len() == m.objects.len(),
        m.write_slot(address, slot).permissions.len() == m.permissions.len(),
{
    let revoked = match m.slot_at(address) {
        Some(occupant) => match m.permission(occupant.permission) {
            Some(data) => if data.spec_exclusive() {
                m.revoke_tenant(occupant.permission)
            } else {
                m
            },
            None => m,
        },
        None => m,
    };
    match m.slot_at(address) {
        Some(occupant) => {
            lemma_revoke_held(m, occupant.permission);
            lemma_revoke_keeps(m, occupant.permission);
        },
        None => {},
    }
    lemma_permissions_only(m, m);
    let after = m.write_slot(address, slot);
    assert(after == revoked.set_slot(address, slot));
    assert(after.permissions == revoked.permissions);
    assert forall|o: Object| m.object(o) is Some implies #[trigger] after.object(o) is Some by {
        assert(revoked.object(o) is Some);
    }
    assert forall|p: Permission| m.permission(p) is Some implies #[trigger] after.permission(p) is Some by {
        assert(revoked.permission(p) is Some);
    }
}

/// A frame made for a call with arguments that are allocated holds what is
/// allocated.
pub proof fn lemma_for_call_held(m: MachineModel, db: &Db, bir: crate::bir::Bir, arguments: Seq<Slot>)
    requires
        m.slots_allocated(arguments),
    ensures
        m.slots_allocated(FrameModel::for_call(db, bir, arguments).variables),
        FrameModel::for_call(db, bir, arguments).in_flight_value is None,
{
    let frame = FrameModel::for_call(db, bir, arguments);
    assert forall|k: int| 0 <= k < frame.variables.len() implies m.slot_allocated(
        #[trigger] frame.variables[k],
    ) by {
        if k < arguments.len() {
            assert(m.slot_allocated(arguments[k]));
        }
    }
}

/// Pushing a frame that holds what is allocated keeps what is held.
pub proof fn lemma_push_frame_held(m: MachineModel, frame: FrameModel)
    ensures
        m.extended_by(m.push_frame(frame)),
        m.push_frame(frame).objects == m.objects,
        m.push_frame(frame).permissions == m.permissions,
        m.slots_allocated(frame.variables) && m.slot_allocated(frame.in_flight_value) ==> m.keeps_held(
            m.push_frame(frame),
        ),
{
    let after = m.push_frame(frame);
    if m.holds_allocated() && m.slots_allocated(frame.variables) && m.slot_allocated(
        frame.in_flight_value,
    ) {
        assert forall|f: int| 0 <= f < after.stack.len() implies #[trigger] after.frame_allocated(f) by {
            if f < m.stack.len() {
                assert(m.frame_allocated(f));
                lemma_extended_slots(m, after, m.stack[f].variables);
            } else {
                lemma_extended_slots(m, after, frame.variables);
            }
        }
        assert forall|o: int| 0 <= o < after.objects.len() implies #[trigger] after.entry_allocated(o) by {
            assert(m.entry_allocated(o));
            match m.objects[o] {
                Some(d) => {
                    lemma_extended_slots(m, after, d.slots());
                },
                None => {},
            }
        }
    }
}

/// Whether the values that `result` hands out are allocated.
pub open spec fn call_allocated(m: MachineModel, result: CallResult) -> bool {
    match result {
        CallResult::Returned(value) => m.allocated(value),
        CallResult::PushedNewFrame => true,
    }
}

/// Calling keeps what is held, and returns what is allocated.
pub proof fn lemma_call_held(
    m: MachineModel,
    db: &Db,
    code: &BirRecord,
    point: ControlPoint,
    function: Place,
    arguments: Seq<Place>,
    labels: Seq<Option<Name>>,
)
    ensures
        m.keeps_held(m.call(db, code, point, function, arguments, labels).0),
        m.call(db, code, point, function, arguments, labels).0.fits() ==> (m.call(
            db,
            code,
            point,
            function,
            arguments,
            labels,
        ).1 matches Ok(result) ==> call_allocated(
            m.call(db, code, point, function, arguments, labels).0,
            result,
        )),
{
    lemma_permissions_only(m, m);
    lemma_read_place_held(m, db, code, function);
    let (m1, r) = m.read_place(db, code, function);
    match r {
        Ok(object) => match m1.object(object) {
            Some(data) => match callee_of(data) {
                Some(callee) => match parameter_names(db, callee) {
                    Some(expected) => {
                        lemma_give_places_held(m1, db, code, arguments, 0, seq![]);
                        lemma_give_places_grow(m1, db, code, arguments, 0, seq![]);
                        let (m2, r2) = m1.give_places(db, code, arguments, 0, seq![]);
                        match r2 {
                            Ok(given) => {
                                match callee {
                                    Callee::Class(class) => {
                                        lemma_new_value_held(
                                            m2,
                                            ObjectModel::Instance { class, fields: given },
                                            PermissionData::spec_my(),
                                        );
                                    },
                                    Callee::Function(f) => {
                                        lemma_new_value_held(
                                            m2,
                                            ObjectModel::Thunk {
                                                callee: crate::model::ThunkCallee::Function(f),
                                                arguments: given,
                                            },
                                            PermissionData::spec_my(),
                                        );
                                        let frame = FrameModel::for_call(db, f.data(db).bir, given);
                                        lemma_push_frame_held(m2, frame);
                                        if m2.slots_allocated(given) {
                                            lemma_for_call_held(m2, db, f.data(db).bir, given);
                                        }
                                    },
                                    Callee::Intrinsic(i) => {
                                        lemma_new_value_held(
                                            m2,
                                            ObjectModel::Thunk {
                                                callee: crate::model::ThunkCallee::Intrinsic(i),
                                                arguments: given,
                                            },
                                            PermissionData::spec_my(),
                                        );
                                    },
                                }
                            },
                            Err(_) => {},
                        }
                    },
                    None => {},
                },
                None => {},
            },
            None => {},
        },
        Err(_) => {},
    }
}

/// Whether the arguments that `result` hands out are allocated.
pub open spec fn await_allocated(m: MachineModel, result: AwaitResultModel) -> bool {
    match result {
        AwaitResultModel::PushedNewFrame => true,
        AwaitResultModel::RustThunk(thunk) => m.slots_allocated(thunk.arguments),
    }
}

/// Awaiting keeps what is held, and hands out what is allocated.
pub proof fn lemma_await_held(m: MachineModel, db: &Db, code: &BirRecord, place: Place)
    ensures
        m.keeps_held(m.await_thunk(db, code, place).0),
        m.holds_allocated() && m.await_thunk(db, code, place).0.fits() ==> (m.await_thunk(
            db,
            code,
            place,
        ).1 matches Ok(result) ==> await_allocated(m.await_thunk(db, code, place).0, result)),
{
    lemma_permissions_only(m, m);
    lemma_give_share_lease_held(m, db, code, place, false);
    let (m1, r) = m.give_place(db, code, place, false);
    match r {
        Ok(value) => match m1.object(value.object) {
            Some(ObjectModel::Thunk { callee, arguments }) => {
                lemma_empty_slots_held(m1, value.object, 0);
                let m2 = m1.empty_slots(value.object, 0);
                if m1.holds_allocated() {
                    assert(m1.entry_allocated(value.object.index as int));
                    assert(m1.slots_allocated(arguments));
                    lemma_extended_slots(m1, m2, arguments);
                    match callee {
                        crate::model::ThunkCallee::Function(f) => {
                            lemma_for_call_held(m2, db, f.data(db).bir, arguments);
                        },
                        _ => {},
                    }
                }
                match callee {
                    crate::model::ThunkCallee::Function(f) => {
                        lemma_push_frame_held(m2, FrameModel::for_call(db, f.data(db).bir, arguments));
                    },
                    _ => {},
                }
            },
            _ => {},
        },
        Err(_) => {},
    }
}

/// Storing what is allocated, or nothing, in a slot of an object keeps what
/// is held.
pub proof fn lemma_set_object_slot_held(m: MachineModel, o: Object, k: int, slot: Slot)
    requires
        m.slot_allocated(slot),
    ensures
        m.keeps_held(m.set_object_slot(o, k, slot)),
        m.set_object_slot(o, k, slot).objects.len() == m.objects.len(),
        m.set_object_slot(o, k, slot).permissions.len() == m.permissions.len(),
{
    let after = m.set_object_slot(o, k, slot);
    if m.holds_allocated() {
        assert forall|f: int| 0 <= f < after.stack.len() implies #[trigger] after.frame_allocated(f) by {
            assert(m.frame_allocated(f));
            lemma_same_objects_slots(m, after, m.stack[f].variables);
        }
        assert forall|x: int| 0 <= x < after.objects.len() implies #[trigger] after.entry_allocated(x) by {
            assert(m.entry_allocated(x));
            match after.objects[x] {
                Some(data) => {
                    assert forall|j: int| 0 <= j < data.slots().len() implies after.slot_allocated(
                        #[trigger] data.slots()[j],
                    ) by {
                        if data.slots()[j] != slot {
                            assert(m.slot_allocated(m.objects[x].unwrap().slots()[j]));
                        }
                    }
                },
                None => {},
            }
        }
    }
}

/// Slots that hold what is allocated in a machine hold what is allocated in
/// a machine that allocates the same.
proof fn lemma_same_objects_slots(m: MachineModel, after: MachineModel, slots: Seq<Slot>)
    requires
        after.permissions == m.permissions,
        after.objects.len() == m.objects.len(),
        forall|x: int| 0 <= x < m.objects.len() ==> (m.objects[x] is Some <==> #[trigger] after.objects[x] is Some),
        m.slots_allocated(slots),
    ensures
        after.slots_allocated(slots),
{
    assert forall|j: int| 0 <= j < slots.len() implies after.slot_allocated(#[trigger] slots[j]) by {
        assert(m.slot_allocated(slots[j]));
        match slots[j] {
            Some(value) => {
                assert(m.objects[value.object.index as int] is Some);
                assert(after.objects[value.object.index as int] is Some);
            },
            None => {},
        }
    }
}

/// Emptying the slots of an object keeps what is held.
pub proof fn lemma_empty_slots_held(m: MachineModel, o: Object, from: int)
    ensures
        m.keeps_held(m.empty_slots(o, from)),
        m.empty_slots(o, from).objects.len() == m.objects.len(),
        m.empty_slots(o, from).permissions.len() == m.permissions.len(),
    decreases
        (match m.object(o) {
            Some(data) => data.slots().len() - from,
            None => 0,
        }),
{
    lemma_permissions_only(m, m);
    match m.object(o) {
        Some(data) => if 0 <= from < data.slots().len() {
            lemma_set_object_slot_held(m, o, from, None);
            let emptied = m.set_object_slot(o, from, None);
            if emptied.object(o) is Some && emptied.object(o).unwrap().slots().len()
                == data.slots().len() {
                lemma_empty_slots_held(emptied, o, from + 1);
            }
        },
        None => {},
    }
}

/// Collecting keeps what is held and what is pinned.
pub proof fn lemma_gc_held(m: MachineModel, extra: Seq<Value>)
    ensures
        m.gc(extra).objects.len() == m.objects.len(),
        m.gc(extra).permissions.len() == m.permissions.len(),
        m.gc(extra).stack == m.stack,
        m.holds_allocated() && m.fits() ==> m.gc(extra).holds_allocated(),
        forall|i: int|
            0 <= i < extra.len() && m.allocated(#[trigger] extra[i]) ==> m.gc(extra).allocated(extra[i]),
{
    let after = m.gc(extra);
    assert forall|i: int| 0 <= i < extra.len() && m.allocated(#[trigger] extra[i]) implies after.allocated(
        extra[i],
    ) by {
        lemma_root_kept(m, extra, extra[i]);
        assert(crate::step::gc::extra_holds(extra, i, Node::Object(extra[i].object)));
        assert(crate::step::gc::extra_holds(extra, i, Node::Permission(extra[i].permission)));
        lemma_root_reachable(m, extra, Node::Object(extra[i].object));
        lemma_root_reachable(m, extra, Node::Permission(extra[i].permission));
    }
    if m.holds_allocated() && m.fits() {
        assert forall|f: int| 0 <= f < after.stack.len() implies #[trigger] after.frame_allocated(f) by {
            assert(m.frame_allocated(f));
            assert forall|k: int| 0 <= k < m.stack[f].variables.len() implies after.slot_allocated(
                #[trigger] m.stack[f].variables[k],
            ) by {
                match m.stack[f].variables[k] {
                    Some(value) => {
                        assert(m.slot_allocated(m.stack[f].variables[k]));
                        lemma_root_kept(m, extra, value);
                        assert(m.variable_holds(f, k, Node::Object(value.object)));
                        assert(m.variable_holds(f, k, Node::Permission(value.permission)));
                        lemma_root_reachable(m, extra, Node::Object(value.object));
                        lemma_root_reachable(m, extra, Node::Permission(value.permission));
                    },
                    None => {},
                }
            }
            match m.stack[f].in_flight_value {
                Some(value) => {
                    lemma_root_kept(m, extra, value);
                    assert(m.in_flight_holds(f, Node::Object(value.object)));
                    assert(m.in_flight_holds(f, Node::Permission(value.permission)));
                    lemma_root_reachable(m, extra, Node::Object(value.object));
                    lemma_root_reachable(m, extra, Node::Permission(value.permission));
                },
                None => {},
            }
        }
        assert forall|o: int| 0 <= o < after.objects.len() implies #[trigger] after.entry_allocated(o) by {
            assert(m.entry_allocated(o));
            let me = Object { index: o as usize };
            match after.objects[o] {
                Some(data) => {
                    assert(m.reachable(extra, Node::Object(me)));
                    assert forall|k: int| 0 <= k < data.slots().len() implies after.slot_allocated(
                        #[trigger] data.slots()[k],
                    ) by {
                        match data.slots()[k] {
                            Some(value) => {
                                assert(m.slot_allocated(m.objects[o].unwrap().slots()[k]));
                                lemma_root_kept(m, extra, value);
                                assert(m.objects[o] == after.objects[o]);
                                assert(m.object(me) == m.objects[o]);
                                assert(m.object_slot(me, k) == Some(value));
                                crate::step::gc::lemma_edges_from_slot(m, me, k, value);
                                lemma_reachable_step(m, extra, Node::Object(me), Node::Object(value.object));
                                lemma_reachable_step(
                                    m,
                                    extra,
                                    Node::Object(me),
                                    Node::Permission(value.permission),
                                );
                            },
                            None => {},
                        }
                    }
                },
                None => {},
            }
        }
    }
}

/// What the collector reaches of an allocated value, it keeps allocated.
proof fn lemma_root_kept(m: MachineModel, extra: Seq<Value>, value: Value)
    requires
        m.allocated(value),
    ensures
        m.reachable(extra, Node::Object(value.object)) ==> m.gc(extra).object(value.object) is Some,
        m.reachable(extra, Node::Permission(value.permission)) ==> m.gc(extra).permission(
            value.permission,
        ) is Some,
{
    if m.reachable(extra, Node::Object(value.object)) {
        assert(m.live_objects(extra)[value.object.index as int]);
    }
    if m.reachable(extra, Node::Permission(value.permission)) {
        assert(m.live_permissions(extra)[value.permission.index as int]);
    }
}

/// Resuming a frame with what is allocated keeps what is held.
pub proof fn lemma_resume_with_held(m: MachineModel, db: &Db, value: Value)
    ensures
        m.extended_by(m.resume_with(db, value).0),
        m.resume_with(db, value).0.objects.len() >= m.objects.len(),
        m.resume_with(db, value).0.permissions.len() >= m.permissions.len(),
        m.allocated(value) ==> m.keeps_held(m.resume_with(db, value).0),
{
    lemma_permissions_only(m, m);
    match m.top_frame() {
        Some(frame) => match frame.awaiting(db) {
            Some((target, next)) => {
                let code = frame.pc.bir.record(db);
                lemma_assign_place_grows(m, db, &code, target, value);
                let (m1, r) = m.assign_place(db, &code, target, value);
                if m.allocated(value) {
                    lemma_assign_place_held(m, db, &code, target, value);
                }
                match r {
                    Ok(()) => {
                        lemma_set_pc_held(m1, frame.pc.spec_move_to_block(next));
                    },
                    Err(_) => {},
                }
            },
            None => {},
        },
        None => {},
    }
}

/// Moving the top frame keeps what is held.
pub proof fn lemma_set_pc_held(m: MachineModel, pc: ProgramCounter)
    ensures
        m.keeps_held(m.set_pc(pc)),
        m.set_pc(pc).objects == m.objects,
        m.set_pc(pc).permissions == m.permissions,
{
    let after = m.set_pc(pc);
    if m.holds_allocated() {
        assert forall|f: int| 0 <= f < after.stack.len() implies #[trigger] after.frame_allocated(f) by {
            assert(m.frame_allocated(f));
        }
        assert forall|o: int| 0 <= o < after.objects.len() implies #[trigger] after.entry_allocated(o) by {
            assert(m.entry_allocated(o));
        }
    }
}

/// Whether the values that `flow` hands to the caller of a step are
/// allocated.
pub open spec fn flow_allocated(m: MachineModel, flow: ControlFlowModel) -> bool {
    match flow {
        ControlFlowModel::Next => true,
        ControlFlowModel::Done(_, value) => m.allocated(value),
        ControlFlowModel::Await(thunk) => m.slots_allocated(thunk.arguments),
    }
}

/// Returning what is allocated keeps what is held and what is returned.
pub proof fn lemma_return_value_held(m: MachineModel, db: &Db, pc: ProgramCounter, value: Value)
    requires
        m.allocated(value),
    ensures
        m.return_value(db, pc, value).0.objects.len() >= m.objects.len(),
        m.return_value(db, pc, value).0.permissions.len() >= m.permissions.len(),
        m.holds_allocated() && m.return_value(db, pc, value).0.fits() ==> m.return_value(
            db,
            pc,
            value,
        ).0.holds_allocated() && (m.return_value(db, pc, value).1 matches Ok(flow) ==> flow_allocated(
            m.return_value(db, pc, value).0,
            flow,
        )),
{
    lemma_clear_from_held(m, 0);
    let m1 = m.clear_frame();
    lemma_gc_held(m1, seq![value]);
    let m2 = m1.gc(seq![value]);
    assert(seq![value][0] == value);
    let m3 = m2.pop_frame();
    lemma_resume_with_held(m3, db, value);
    if m.holds_allocated() && m.return_value(db, pc, value).0.fits() {
        assert(m1.holds_allocated());
        assert(m2.holds_allocated());
        assert(m2.allocated(value));
        assert forall|f: int| 0 <= f < m3.stack.len() implies #[trigger] m3.frame_allocated(f) by {
            assert(m2.frame_allocated(f));
        }
        assert forall|o: int| 0 <= o < m3.objects.len() implies #[trigger] m3.entry_allocated(o) by {
            assert(m2.entry_allocated(o));
        }
        assert(m3.holds_allocated());
        assert(m3.allocated(value));
    }
}

/// Executing a terminator keeps what is held, and hands out what is
/// allocated.
pub proof fn lemma_step_terminator_held(
    m: MachineModel,
    db: &Db,
    code: &BirRecord,
    pc: ProgramCounter,
    point: ControlPoint,
)
    ensures
        m.step_terminator(db, code, pc, point).0.objects.len() >= m.objects.len(),
        m.step_terminator(db, code, pc, point).0.permissions.len() >= m.permissions.len(),
        m.holds_allocated() && m.step_terminator(db, code, pc, point).0.fits() ==> m.step_terminator(
            db,
            code,
            pc,
            point,
        ).0.holds_allocated() && (m.step_terminator(db, code, pc, point).1 matches Ok(flow)
            ==> flow_allocated(m.step_terminator(db, code, pc, point).0, flow)),
{
    lemma_permissions_only(m, m);
    match code.data.tables.control_points@[point.index as int] {
        ControlPointData::Terminator(TerminatorData::Goto(b)) => {
            lemma_set_pc_held(m, pc.spec_move_to_block(b));
        },
        ControlPointData::Terminator(TerminatorData::StartAtomic(b)) => {
            lemma_set_pc_held(m, pc.spec_move_to_block(b));
        },
        ControlPointData::Terminator(TerminatorData::EndAtomic(b)) => {
            lemma_set_pc_held(m, pc.spec_move_to_block(b));
        },
        ControlPointData::Terminator(TerminatorData::If(place, if_true, if_false)) => {
            lemma_read_place_held(m, db, code, place);
            let (m1, r) = m.eval_place_to_bool(db, code, place);
            lemma_set_pc_held(m1, pc.spec_move_to_block(if_true));
            lemma_set_pc_held(m1, pc.spec_move_to_block(if_false));
        },
        ControlPointData::Terminator(
            TerminatorData::Assign(destination, TerminatorExpr::Call { function, arguments, labels }, next),
        ) => {
            lemma_call_held(m, db, code, point, function, arguments@, labels@);
            let (m1, r) = m.call(db, code, point, function, arguments@, labels@);
            match r {
                Ok(CallResult::Returned(value)) => {
                    lemma_assign_place_grows(m1, db, code, destination, value);
                    if m1.allocated(value) {
                        lemma_assign_place_held(m1, db, code, destination, value);
                    }
                    let (m2, r2) = m1.assign_place(db, code, destination, value);
                    lemma_set_pc_held(m2, pc.spec_move_to_block(next));
                },
                _ => {},
            }
        },
        ControlPointData::Terminator(TerminatorData::Assign(_, TerminatorExpr::Await(place), _)) => {
            lemma_await_held(m, db, code, place);
        },
        ControlPointData::Terminator(TerminatorData::Return(place)) => {
            lemma_give_share_lease_held(m, db, code, place, true);
            let (m1, r) = m.give_place(db, code, place, true);
            match r {
                Ok(value) => {
                    lemma_return_value_grows(m1, db, pc, value);
                    if m1.allocated(value) {
                        lemma_return_value_held(m1, db, pc, value);
                    }
                },
                Err(_) => {},
            }
        },
        _ => {},
    }
}

/// Returning allocates and reclaims no entry of the tables.
pub proof fn lemma_return_value_grows(m: MachineModel, db: &Db, pc: ProgramCounter, value: Value)
    ensures
        m.return_value(db, pc, value).0.objects.len() >= m.objects.len(),
        m.return_value(db, pc, value).0.permissions.len() >= m.permissions.len(),
{
    lemma_clear_from_held(m, 0);
    let m1 = m.clear_frame();
    lemma_gc_held(m1, seq![value]);
    let m3 = m1.gc(seq![value]).pop_frame();
    lemma_resume_with_held(m3, db, value);
}

/// The values of slots that are allocated are allocated.
pub proof fn lemma_slot_values_allocated(m: MachineModel, slots: Seq<Slot>, from: int, found: Seq<Value>)
    requires
        m.slots_allocated(slots),
        forall|i: int| 0 <= i < found.len() ==> m.allocated(#[trigger] found[i]),
        0 <= from,
    ensures
        forall|i: int|
            0 <= i < slot_values(slots, from, found).len() ==> m.allocated(
                #[trigger] slot_values(slots, from, found)[i],
            ),
        forall|k: int|
            from <= k < slots.len() && slots[k] is Some ==> slot_values(slots, from, found).contains(
                #[trigger] slots[k].unwrap(),
            ),
        forall|i: int| 0 <= i < found.len() ==> slot_values(slots, from, found).contains(#[trigger] found[i]),
    decreases slots.len() - from,
{
    if from < slots.len() {
        let next = match slots[from] {
            Some(value) => found.push(value),
            None => found,
        };
        assert forall|i: int| 0 <= i < next.len() implies m.allocated(#[trigger] next[i]) by {
            if i < found.len() {
                assert(m.allocated(found[i]));
            } else {
                assert(m.slot_allocated(slots[from]));
            }
        }
        lemma_slot_values_allocated(m, slots, from + 1, next);
        assert(slot_values(slots, from, found) == slot_values(slots, from + 1, next));
        assert forall|i: int| 0 <= i < found.len() implies slot_values(slots, from, found).contains(
            #[trigger] found[i],
        ) by {
            assert(next[i] == found[i]);
        }
        match slots[from] {
            Some(value) => {
                assert(next[found.len() as int] == value);
            },
            None => {},
        }
    } else {
        assert(slot_values(slots, from, found) == found);
        assert forall|i: int| 0 <= i < found.len() implies slot_values(slots, from, found).contains(
            #[trigger] found[i],
        ) by {
            assert(slot_values(slots, from, found)[i] == found[i]);
        }
    }
}

/// Collecting with the values of `flow` pinned keeps them allocated.
pub proof fn lemma_pinned_kept(m: MachineModel, flow: ControlFlowModel)
    requires
        flow_allocated(m, flow),
    ensures
        flow_allocated(m.gc(pinned(flow)), flow),
{
    lemma_gc_held(m, pinned(flow));
    match flow {
        ControlFlowModel::Done(_, value) => {
            assert(pinned(flow)[0] == value);
        },
        ControlFlowModel::Await(thunk) => {
            lemma_slot_values_allocated(m, thunk.arguments, 0, seq![]);
            let after = m.gc(pinned(flow));
            assert forall|k: int| 0 <= k < thunk.arguments.len() implies after.slot_allocated(
                #[trigger] thunk.arguments[k],
            ) by {
                match thunk.arguments[k] {
                    Some(value) => {
                        assert(m.slot_allocated(thunk.arguments[k]));
                        assert(pinned(flow).contains(thunk.arguments[k].unwrap()));
                        let i = choose|i: int| 0 <= i < pinned(flow).len() && pinned(flow)[i] == value;
                        assert(m.allocated(pinned(flow)[i]));
                    },
                    None => {},
                }
            }
        },
        ControlFlowModel::Next => {},
    }
}

/// A step keeps what is held, and hands out what is allocated.
///
/// If nothing that the machine holds dangles before a step, nothing that it
/// holds dangles after it, and what the step hands to its caller is
/// allocated.
pub proof fn lemma_step_held(m: MachineModel, db: &Db, host_ok: bool)
    ensures
        m.holds_allocated() && m.step(db, host_ok).0.fits() ==> m.step(db, host_ok).0.holds_allocated()
            && (m.step(db, host_ok).1 matches Ok(flow) ==> flow_allocated(m.step(db, host_ok).0, flow)),
{
    let frame = m.stack.last();
    let pc = frame.pc;
    let code = pc.bir.record(db);
    let point = frame.point(db).unwrap();
    match code.data.tables.control_points@[point.index as int] {
        ControlPointData::Statement(s) => {
            lemma_step_statement_held(m, db, &code, point, s.action, host_ok);
            let (m1, r) = m.step_statement(db, &code, point, s.action, host_ok);
            match r {
                Ok(()) => {
                    let m2 = m1.set_pc(ProgramCounter { statement: (pc.statement + 1) as usize, ..pc });
                    lemma_set_pc_held(m1, ProgramCounter { statement: (pc.statement + 1) as usize, ..pc });
                    lemma_gc_held(m2, seq![]);
                },
                Err(_) => {},
            }
        },
        ControlPointData::Terminator(_) => {
            lemma_step_terminator_held(m, db, &code, pc, point);
            let (m1, r) = m.step_terminator(db, &code, pc, point);
            match r {
                Ok(flow) => {
                    lemma_gc_held(m1, pinned(flow));
                    if m.holds_allocated() && m1.fits() {
                        lemma_pinned_kept(m1, flow);
                    }
                },
                Err(_) => {},
            }
        },
    }
}

} // verus!
