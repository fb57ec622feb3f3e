//! What is uniquely owned is held once: no two slots hold values through the
//! same permission `My`, and a step keeps it so.
use vstd::prelude::*;
use crate::bir::{
    ActionData, BirRecord, ControlPoint, ControlPointData, Expr, ExprData, LocalVariable, Name, Place,
    TargetPlace, TerminatorData, TerminatorExpr,
};
use crate::db::Db;
use crate::model::{
    FrameModel, MachineModel, Object, ObjectModel, Permission, PermissionData, PermissionKind,
    ProgramCounter, Slot, ThunkCallee, Value,
};
use crate::step::await_thunk::AwaitResultModel;
use crate::step::call::{CallResult, Callee, callee_of, parameter_names};
use crate::step::eval::{ControlFlowModel, display_text, pinned};
use crate::step::held::{
    lemma_assign_place_grows, lemma_await_held, lemma_borrow_value_held, lemma_call_held,
    lemma_clear_from_held, lemma_concatenate_held, lemma_empty_slots_held, lemma_eval_expr_held,
    lemma_extended_slots, lemma_for_call_held, lemma_gc_held, lemma_give_places_extend,
    lemma_give_places_grow, lemma_give_places_held, lemma_give_share_lease_held, lemma_new_value_held,
    lemma_permissions_only, lemma_pinned_kept, lemma_primitive_slots, lemma_push_frame_held,
    lemma_read_place_held, lemma_resume_with_held, lemma_revoke_held, lemma_revoke_tenants_held,
    lemma_set_pc_held, lemma_set_slot_held, lemma_step_held, lemma_step_statement_held,
    lemma_step_terminator_held, lemma_traverse_to_object_held, lemma_write_slot_grows,
    lemma_write_slot_held,
};
use crate::step::links::lemma_cancel_chain_only_cancels;
use crate::step::revoke::cancel_chain;
use crate::step::shape::lemma_revoke_keeps;
use crate::step::traversal::SlotAddress;

verus! {

/// Where a machine may hold a value: in a slot of a frame, in flight in a
/// frame, or in a slot of an object.
pub enum Location {
    Variable(int, int),
    InFlight(int),
    Field(int, int),
}

impl MachineModel {
    /// What the machine holds at `location`.
    pub open spec fn value_at(self, location: Location) -> Slot {
        match location {
            Location::Variable(f, i) => if 0 <= f < self.stack.len() && 0 <= i
                < self.stack[f].variables.len() {
                self.stack[f].variables[i]
            } else {
                None
            },
            Location::InFlight(f) => if 0 <= f < self.stack.len() {
                self.stack[f].in_flight_value
            } else {
                None
            },
            Location::Field(o, k) => if 0 <= o < self.objects.len() {
                match self.objects[o] {
                    Some(data) => if 0 <= k < data.slots().len() {
                        data.slots()[k]
                    } else {
                        None
                    },
                    None => None,
                }
            } else {
                None
            },
        }
    }

    /// Whether the machine holds a value through `p` at `location`.
    pub open spec fn holds_through(self, location: Location, p: Permission) -> bool {
        match self.value_at(location) {
            Some(value) => value.permission == p,
            None => false,
        }
    }

    /// Whether `p` is the permission of a unique owner.
    pub open spec fn owned(self, p: Permission) -> bool {
        match self.permission(p) {
            Some(data) => data.kind == PermissionKind::My,
            None => false,
        }
    }

    /// What is uniquely owned is held once.
    pub open spec fn unaliased(self) -> bool {
        forall|a: Location, b: Location, p: Permission|
            #[trigger] self.holds_through(a, p) && #[trigger] self.holds_through(b, p) && self.owned(p)
                ==> a == b
    }

    /// The machine holds no value through `p`.
    pub open spec fn free(self, p: Permission) -> bool {
        forall|a: Location| !#[trigger] self.holds_through(a, p)
    }

    /// If `value` is uniquely owned, the machine holds no value through its
    /// permission: the value can be stored without making an alias.
    pub open spec fn storable(self, value: Value) -> bool {
        self.owned(value.permission) ==> self.free(value.permission)
    }

    /// The values of `slots` can be stored together: each is storable, and no
    /// two of them that are uniquely owned have the same permission.
    pub open spec fn storable_together(self, slots: Seq<Slot>) -> bool {
        &&& forall|k: int|
            0 <= k < slots.len() ==> match #[trigger] slots[k] {
                Some(value) => self.storable(value),
                None => true,
            }
        &&& forall|j: int, k: int|
            0 <= j < slots.len() && 0 <= k < slots.len() && j != k ==> match (
                #[trigger] slots[j],
                #[trigger] slots[k],
            ) {
                (Some(a), Some(b)) => a.permission == b.permission ==> !self.owned(a.permission),
                _ => true,
            }
    }

    /// `after` holds only what this machine holds, and owns only what this
    /// machine owns or has not allocated.
    pub open spec fn shed_to(self, after: MachineModel) -> bool {
        &&& forall|a: Location, p: Permission| #[trigger]
            after.holds_through(a, p) ==> self.holds_through(a, p)
        &&& forall|p: Permission| #[trigger]
            after.owned(p) ==> self.owned(p) || self.permission(p) is None
    }

    /// The location of the slot at `address`.
    pub open spec fn location_of(self, address: SlotAddress) -> Location {
        match address {
            SlotAddress::Local(local) => Location::Variable(self.stack.len() - 1, local.index as int),
            SlotAddress::Field(o, k) => Location::Field(o.index as int, k as int),
        }
    }
}

/// Nothing is held through a permission that is not allocated, if nothing
/// that is held dangles.
pub proof fn lemma_fresh_is_free(m: MachineModel, p: Permission)
    requires
        m.holds_allocated(),
        m.permission(p) is None,
    ensures
        m.free(p),
{
    assert forall|a: Location| !#[trigger] m.holds_through(a, p) by {
        match a {
            Location::Variable(f, i) => {
                if 0 <= f < m.stack.len() && 0 <= i < m.stack[f].variables.len() {
                    assert(m.frame_allocated(f));
                    assert(m.slot_allocated(m.stack[f].variables[i]));
                }
            },
            Location::InFlight(f) => {
                if 0 <= f < m.stack.len() {
                    assert(m.frame_allocated(f));
                }
            },
            Location::Field(o, k) => {
                if 0 <= o < m.objects.len() {
                    assert(m.entry_allocated(o));
                    match m.objects[o] {
                        Some(data) => {
                            if 0 <= k < data.slots().len() {
                                assert(m.slot_allocated(data.slots()[k]));
                            }
                        },
                        None => {},
                    }
                }
            },
        }
    }
}

/// A machine that has only shed holds once what is uniquely owned, and what
/// was free or storable stays so.
pub proof fn lemma_shed_unaliased(m: MachineModel, after: MachineModel)
    requires
        m.shed_to(after),
        m.holds_allocated(),
    ensures
        m.unaliased() ==> after.unaliased(),
        forall|p: Permission| m.free(p) ==> #[trigger] after.free(p),
        forall|v: Value| m.storable(v) && m.permission(v.permission) is Some ==> #[trigger] after.storable(v),
{
    if m.unaliased() {
        assert forall|a: Location, b: Location, p: Permission|
            #[trigger] after.holds_through(a, p) && #[trigger] after.holds_through(b, p) && after.owned(
                p,
            ) implies a == b by {
            assert(m.holds_through(a, p) && m.holds_through(b, p));
            if m.permission(p) is None {
                lemma_fresh_is_free(m, p);
            }
        }
    }
    assert forall|p: Permission| m.free(p) implies #[trigger] after.free(p) by {
        assert forall|a: Location| !#[trigger] after.holds_through(a, p) by {
            assert(!m.holds_through(a, p));
        }
    }
    assert forall|v: Value| m.storable(v) && m.permission(v.permission) is Some implies #[trigger] after.storable(
        v,
    ) by {
        if after.owned(v.permission) {
            assert(m.owned(v.permission));
            assert(m.free(v.permission));
            assert(after.free(v.permission));
        }
    }
}

/// Shedding is transitive, along machines that keep allocated what is
/// allocated.
pub proof fn lemma_shed_trans(a: MachineModel, b: MachineModel, c: MachineModel)
    requires
        a.shed_to(b),
        b.shed_to(c),
        a.extended_by(b),
    ensures
        a.shed_to(c),
{
    assert forall|l: Location, p: Permission| #[trigger] c.holds_through(l, p) implies a.holds_through(
        l,
        p,
    ) by {
        assert(b.holds_through(l, p));
    }
    assert forall|p: Permission| #[trigger] c.owned(p) implies a.owned(p) || a.permission(p) is None by {
        if !b.owned(p) {
            assert(b.permission(p) is None);
        }
    }
}

/// A machine that differs from another in its permissions alone, without a
/// new owner among the permissions of the other, has only shed.
pub proof fn lemma_permissions_shed(m: MachineModel, after: MachineModel)
    requires
        after.stack == m.stack,
        after.objects == m.objects,
        forall|p: Permission| #[trigger] after.owned(p) ==> m.owned(p) || m.permission(p) is None,
    ensures
        m.shed_to(after),
{
    assert forall|a: Location, p: Permission| #[trigger] after.holds_through(a, p) implies m.holds_through(
        a,
        p,
    ) by {
        assert(after.value_at(a) == m.value_at(a));
    }
}

/// Revoking only sheds.
pub proof fn lemma_revoke_sheds(m: MachineModel, p: Permission)
    ensures
        m.shed_to(m.revoke(p)),
        m.shed_to(m.revoke_tenant(p)),
        m.shed_to(m.revoke_leased_tenant(p)),
{
    lemma_revoke_one_sheds(m, p);
    match m.tenant(p) {
        Some(t) => {
            lemma_revoke_one_sheds(m, t);
        },
        None => {},
    }
    lemma_permissions_shed(m, m);
}

proof fn lemma_revoke_one_sheds(m: MachineModel, p: Permission)
    ensures
        m.shed_to(m.revoke(p)),
{
    lemma_revoke_keeps(m, p);
    let d = m.detach(p);
    lemma_cancel_chain_only_cancels(d.permissions, p, m.pc());
    let r = cancel_chain(d.permissions, p, m.pc());
    assert forall|q: Permission| #[trigger] m.revoke(p).owned(q) implies m.owned(q) || m.permission(
        q,
    ) is None by {
        assert(r[q.index as int] == d.permissions[q.index as int] || d.permissions[q.index as int] is Some);
    }
    lemma_permissions_shed(m, m.revoke(p));
}

/// Revoking the tenants of a list of permissions only sheds.
pub proof fn lemma_revoke_tenants_shed(m: MachineModel, permissions: Seq<Permission>, from: int)
    ensures
        m.shed_to(m.revoke_tenants(permissions, from)),
        m.shed_to(m.revoke_leased_tenants(permissions, from)),
    decreases permissions.len() - from,
{
    if 0 <= from < permissions.len() {
        lemma_revoke_sheds(m, permissions[from]);
        lemma_revoke_held(m, permissions[from]);
        let a = m.revoke_tenant(permissions[from]);
        lemma_revoke_tenants_shed(a, permissions, from + 1);
        lemma_shed_trans(m, a, a.revoke_tenants(permissions, from + 1));
        let b = m.revoke_leased_tenant(permissions[from]);
        lemma_revoke_tenants_shed(b, permissions, from + 1);
        lemma_shed_trans(m, b, b.revoke_leased_tenants(permissions, from + 1));
    } else {
        lemma_permissions_shed(m, m);
    }
}

/// The slot at an address is what the machine holds at the location of the
/// address.
pub proof fn lemma_slot_at_location(m: MachineModel, address: SlotAddress)
    ensures
        m.slot_at(address) == m.value_at(m.location_of(address)),
{
}

/// Emptying a slot only sheds, and what the slot held through a permission
/// that is uniquely owned is then held nowhere.
pub proof fn lemma_take_sheds(m: MachineModel, address: SlotAddress)
    ensures
        m.shed_to(m.set_slot(address, None)),
        m.unaliased() ==> (m.slot_at(address) matches Some(value) ==> m.set_slot(address, None).storable(
            value,
        )),
{
    let after = m.set_slot(address, None);
    let here = m.location_of(address);
    assert forall|a: Location| a != here implies #[trigger] after.value_at(a) == m.value_at(a) by {
        lemma_set_slot_elsewhere(m, address, None, a);
    }
    lemma_set_slot_here(m, address, None);
    assert forall|a: Location, p: Permission| #[trigger] after.holds_through(a, p) implies m.holds_through(
        a,
        p,
    ) by {
        if a != here {
            assert(after.value_at(a) == m.value_at(a));
        }
    }
    if m.unaliased() {
        match m.slot_at(address) {
            Some(value) => {
                if after.owned(value.permission) {
                    assert forall|a: Location| !#[trigger] after.holds_through(a, value.permission) by {
                        if a != here {
                            assert(after.value_at(a) == m.value_at(a));
                            if m.holds_through(a, value.permission) {
                                assert(m.holds_through(here, value.permission));
                            }
                        }
                    }
                }
            },
            None => {},
        }
    }
}

/// Replacing a slot leaves what the machine holds elsewhere.
pub proof fn lemma_set_slot_elsewhere(m: MachineModel, address: SlotAddress, slot: Slot, a: Location)
    requires
        a != m.location_of(address),
    ensures
        m.set_slot(address, slot).value_at(a) == m.value_at(a),
{
    let after = m.set_slot(address, slot);
    match a {
        Location::Field(o, k) => {
            if 0 <= o < m.objects.len() {
                match address {
                    SlotAddress::Field(x, j) => {
                        if x.index == o {
                            match m.objects[o] {
                                Some(data) => {
                                    if 0 <= j < data.slots().len() {
                                        assert(after.objects[o] == Some(
                                            data.with_slots(data.slots().update(j as int, slot)),
                                        ));
                                        lemma_with_slots(data, data.slots().update(j as int, slot));
                                    }
                                },
                                None => {},
                            }
                        }
                    },
                    _ => {},
                }
            }
        },
        _ => {},
    }
}

/// An object with its slots replaced has the slots it was given, if it has
/// slots at all.
pub proof fn lemma_with_slots(data: ObjectModel, slots: Seq<Slot>)
    ensures
        data.slots().len() > 0 ==> data.with_slots(slots).slots() == slots,
        data.slots().len() == slots.len() ==> data.with_slots(slots).slots() =~= slots,
{
}

/// After a slot has been replaced the machine holds there what was stored, if
/// there is such a slot.
pub proof fn lemma_set_slot_here(m: MachineModel, address: SlotAddress, slot: Slot)
    ensures
        m.set_slot(address, slot).value_at(m.location_of(address)) == slot || m.set_slot(address, slot)
            == m,
        m.set_slot(address, slot).location_of(address) == m.location_of(address),
{
    let after = m.set_slot(address, slot);
    match address {
        SlotAddress::Field(x, j) => {
            match m.object(x) {
                Some(data) => {
                    if 0 <= j < data.slots().len() {
                        lemma_with_slots(data, data.slots().update(j as int, slot));
                    }
                },
                None => {},
            }
        },
        _ => {},
    }
}

/// Storing a value that can be stored keeps held once what is uniquely
/// owned.
pub proof fn lemma_store_unaliased(m: MachineModel, address: SlotAddress, value: Value)
    requires
        m.unaliased(),
        m.storable(value),
    ensures
        m.set_slot(address, Some(value)).unaliased(),
        forall|p: Permission| p != value.permission && m.free(p) ==> #[trigger] m.set_slot(
            address,
            Some(value),
        ).free(p),
{
    let after = m.set_slot(address, Some(value));
    let here = m.location_of(address);
    lemma_set_slot_here(m, address, Some(value));
    assert forall|a: Location| a != here implies #[trigger] after.value_at(a) == m.value_at(a) by {
        lemma_set_slot_elsewhere(m, address, Some(value), a);
    }
    assert forall|a: Location, b: Location, p: Permission|
        #[trigger] after.holds_through(a, p) && #[trigger] after.holds_through(b, p) && after.owned(
            p,
        ) implies a == b by {
        if a != here {
            assert(after.value_at(a) == m.value_at(a));
        }
        if b != here {
            assert(after.value_at(b) == m.value_at(b));
        }
        if a != here && b != here {
            assert(m.holds_through(a, p) && m.holds_through(b, p));
        } else if a != b {
            if after == m {
                assert(m.holds_through(a, p) && m.holds_through(b, p));
            } else {
                assert(p == value.permission);
                if a != here {
                    assert(m.holds_through(a, p));
                } else {
                    assert(m.holds_through(b, p));
                }
            }
        }
    }
    assert forall|p: Permission| p != value.permission && m.free(p) implies #[trigger] after.free(p) by {
        assert forall|a: Location| !#[trigger] after.holds_through(a, p) by {
            if a != here {
                assert(after.value_at(a) == m.value_at(a));
            }
            assert(!m.holds_through(a, p));
        }
    }
}

impl MachineModel {
    /// The tables are no longer than a table can be, nothing that the
    /// machine holds dangles, and what is uniquely owned is held once.
    pub open spec fn tidy(self) -> bool {
        self.fits() && self.holds_allocated() && self.unaliased()
    }
}

/// Clearing a slot only sheds.
pub proof fn lemma_clear_sheds(m: MachineModel, address: SlotAddress)
    ensures
        m.shed_to(m.write_slot(address, None)),
{
    let revoked = match m.slot_at(address) {
        Some(occupant) => match m.permission(occupant.permission) {
            Some(data) => if data.spec_exclusive() {
                m.revoke_tenant(occupant.permission)
            } else {
                m
            },
            None => m,
        },
        None => m,
    };
    match m.slot_at(address) {
        Some(occupant) => {
            lemma_revoke_sheds(m, occupant.permission);
            lemma_revoke_held(m, occupant.permission);
        },
        None => {},
    }
    lemma_permissions_shed(m, m);
    lemma_permissions_only(m, m);
    lemma_take_sheds(revoked, address);
    lemma_shed_trans(m, revoked, revoked.set_slot(address, None));
}

/// Clearing slots of the top frame only sheds.
pub proof fn lemma_clear_from_sheds(m: MachineModel, from: int)
    ensures
        m.shed_to(m.clear_from(from)),
    decreases
        (match m.top_frame() {
            Some(frame) => frame.variables.len() - from,
            None => 0,
        }),
{
    lemma_permissions_shed(m, m);
    match m.top_frame() {
        Some(frame) => if 0 <= from < frame.variables.len() {
            let local = LocalVariable { index: from as usize };
            lemma_clear_sheds(m, SlotAddress::Local(local));
            lemma_write_slot_grows(m, SlotAddress::Local(local), None);
            let cleared = m.clear(local);
            if cleared.top_frame() is Some && cleared.top_frame().unwrap().variables.len()
                == frame.variables.len() {
                lemma_clear_from_sheds(cleared, from + 1);
                lemma_shed_trans(m, cleared, cleared.clear_from(from + 1));
            }
        },
        None => {},
    }
}

/// Allocating an object without slots and a permission that is shared only
/// sheds.
pub proof fn lemma_fresh_global_sheds(m: MachineModel, data: ObjectModel)
    requires
        data.slots().len() == 0,
    ensures
        m.shed_to(m.new_value(data, PermissionData::spec_our()).0),
        m.new_value(data, PermissionData::spec_our()).0.fits() ==> !m.new_value(
            data,
            PermissionData::spec_our(),
        ).0.owned(m.new_value(data, PermissionData::spec_our()).1.permission),
{
    let (after, value) = m.new_value(data, PermissionData::spec_our());
    assert forall|a: Location, p: Permission| #[trigger] after.holds_through(a, p) implies m.holds_through(
        a,
        p,
    ) by {
        match a {
            Location::Field(o, k) => {
                if o == m.objects.len() {
                    assert(after.objects[o] == Some(data));
                }
            },
            _ => {},
        }
    }
}

/// Resolving a place to an object only sheds.  What it finds is what the
/// machine holds in the slot that it names, and a value made on the spot is
/// not uniquely owned.
pub proof fn lemma_traverse_sheds(m: MachineModel, db: &Db, code: &BirRecord, place: Place)
    ensures
        m.shed_to(m.traverse_to_object(db, code, place).0),
        m.traverse_to_object(db, code, place).1 matches Ok(t) ==> match t.origin {
            Some(address) => m.traverse_to_object(db, code, place).0.slot_at(address) == Some(t.value),
            None => m.traverse_to_object(db, code, place).0.fits() ==> !m.traverse_to_object(
                db,
                code,
                place,
            ).0.owned(t.value.permission),
        },
    decreases place.index,
{
    lemma_permissions_shed(m, m);
    if place.index < code.data.tables.places@.len() {
        match code.data.tables.places@[place.index as int] {
            crate::bir::PlaceData::Function(f) => {
                lemma_fresh_global_sheds(m, ObjectModel::Function(f));
            },
            crate::bir::PlaceData::Class(c) => {
                lemma_fresh_global_sheds(m, ObjectModel::Class(c));
            },
            crate::bir::PlaceData::Intrinsic(i) => {
                lemma_fresh_global_sheds(m, ObjectModel::Intrinsic(i));
            },
            crate::bir::PlaceData::Dot(base, name) => {
                if base.index < place.index {
                    lemma_traverse_sheds(m, db, code, base);
                }
            },
            _ => {},
        }
    }
}

/// Reading a place only sheds.
pub proof fn lemma_read_place_sheds(m: MachineModel, db: &Db, code: &BirRecord, place: Place)
    ensures
        m.shed_to(m.read_place(db, code, place).0),
        m.shed_to(m.peek_place(db, code, place).0),
{
    lemma_traverse_sheds(m, db, code, place);
    lemma_traverse_to_object_held(m, db, code, place);
    let (m1, r) = m.traverse_to_object(db, code, place);
    match r {
        Ok(t) => {
            lemma_revoke_tenants_shed(m1, t.traversed, 0);
            lemma_shed_trans(m, m1, m1.revoke_leased_tenants(t.traversed, 0));
        },
        Err(_) => {},
    }
}

/// Giving only sheds, and what it gives can be stored.  What it gives
/// uniquely owned, the machine held before.
pub proof fn lemma_give_place_sheds(m: MachineModel, db: &Db, code: &BirRecord, place: Place, clearing: bool)
    ensures
        m.shed_to(m.give_place(db, code, place, clearing).0),
        m.tidy() && m.give_place(db, code, place, clearing).0.fits() ==> (m.give_place(
            db,
            code,
            place,
            clearing,
        ).1 matches Ok(v) ==> m.give_place(db, code, place, clearing).0.storable(v) && (m.give_place(
            db,
            code,
            place,
            clearing,
        ).0.owned(v.permission) ==> !m.free(v.permission))),
{
    lemma_traverse_sheds(m, db, code, place);
    lemma_traverse_to_object_held(m, db, code, place);
    let (m1, r) = m.traverse_to_object(db, code, place);
    match r {
        Ok(t) => {
            match t.origin {
                Some(address) => {
                    lemma_take_sheds(m1, address);
                    lemma_shed_trans(m, m1, m1.set_slot(address, None));
                    lemma_set_slot_held(m1, address, None);
                    if m.tidy() && m.give_place(db, code, place, clearing).0.fits() {
                        lemma_shed_unaliased(m, m1);
                        lemma_slot_at_location(m1, address);
                        assert(m1.holds_through(m1.location_of(address), t.value.permission));
                        assert(m.holds_through(m1.location_of(address), t.value.permission));
                    }
                },
                None => {},
            }
        },
        Err(_) => {},
    }
}

/// Sharing and leasing only shed, and what they produce is not uniquely
/// owned.
pub proof fn lemma_share_lease_shed(m: MachineModel, db: &Db, code: &BirRecord, place: Place)
    ensures
        m.shed_to(m.share_place(db, code, place).0),
        m.shed_to(m.lease_place(db, code, place).0),
        m.share_place(db, code, place).0.fits() ==> (m.share_place(db, code, place).1 matches Ok(v)
            ==> !m.share_place(db, code, place).0.owned(v.permission)),
        m.lease_place(db, code, place).0.fits() ==> (m.lease_place(db, code, place).1 matches Ok(v)
            ==> !m.lease_place(db, code, place).0.owned(v.permission)),
{
    lemma_traverse_sheds(m, db, code, place);
    lemma_traverse_to_object_held(m, db, code, place);
    let (m1, r) = m.traverse_to_object(db, code, place);
    match r {
        Ok(t) => {
            lemma_revoke_tenants_shed(m1, t.traversed, 0);
            lemma_revoke_tenants_held(m1, t.traversed, 0);
            let m2 = m1.revoke_leased_tenants(t.traversed, 0);
            lemma_shed_trans(m, m1, m2);
            lemma_borrow_sheds(m2, t.value, PermissionKind::Shared);
            lemma_borrow_sheds(m1, t.value, PermissionKind::Leased);
            lemma_shed_trans(m, m2, m2.borrow_value(t.value, PermissionKind::Shared).0);
            lemma_shed_trans(m, m1, m1.borrow_value(t.value, PermissionKind::Leased).0);
            match m2.permission(t.value.permission) {
                Some(data) => {
                    let demoted = m2.set_permission(
                        t.value.permission,
                        PermissionData { kind: PermissionKind::Our, ..data },
                    );
                    assert forall|q: Permission| #[trigger] demoted.owned(q) implies m2.owned(q)
                        || m2.permission(q) is None by {
                    }
                    lemma_permissions_shed(m2, demoted);
                    assert forall|q: Permission| m2.permission(q) is Some implies #[trigger] demoted.permission(
                        q,
                    ) is Some by {
                    }
                    lemma_permissions_only(m2, demoted);
                    lemma_shed_trans(m, m2, demoted);
                },
                None => {},
            }
        },
        Err(_) => {},
    }
}

/// Borrowing only sheds, and the borrow is not uniquely owned.
pub proof fn lemma_borrow_sheds(m: MachineModel, value: Value, kind: PermissionKind)
    requires
        kind == PermissionKind::Leased || kind == PermissionKind::Shared,
    ensures
        m.shed_to(m.borrow_value(value, kind).0),
        m.extended_by(m.borrow_value(value, kind).0),
        m.borrow_value(value, kind).0.fits() ==> !m.borrow_value(value, kind).0.owned(
            m.borrow_value(value, kind).1.permission,
        ),
{
    let p = value.permission;
    let (m1, t) = m.new_permission(PermissionData::spec_borrowed(kind, p));
    lemma_borrow_value_held(m, value, kind);
    lemma_revoke_sheds(m1, p);
    lemma_revoke_keeps(m1, p);
    let m2 = m1.revoke_tenant(p);
    let after = m1.install_tenant(p, t);
    assert(after.stack == m.stack);
    assert(after.objects == m.objects);
    assert forall|q: Permission| #[trigger] after.owned(q) implies m.owned(q) || m.permission(q) is None by {
        if m.permission(q) is Some {
            assert(m1.permission(q) == m.permission(q));
            assert(m2.owned(q) ==> m1.owned(q) || m1.permission(q) is None);
        }
    }
    lemma_permissions_shed(m, after);
    if after.fits() {
        assert(m1.permission(t) is Some && !m1.owned(t));
        assert(m2.owned(t) ==> m1.owned(t) || m1.permission(t) is None);
    }
}

/// Storing a value that can be stored, with what that revokes, keeps the
/// machine tidy.
pub proof fn lemma_write_value_tidy(m: MachineModel, address: SlotAddress, value: Value)
    requires
        m.tidy(),
        m.allocated(value),
        m.storable(value),
    ensures
        m.write_slot(address, Some(value)).tidy(),
{
    let revoked = match m.slot_at(address) {
        Some(occupant) => match m.permission(occupant.permission) {
            Some(data) => if data.spec_exclusive() {
                m.revoke_tenant(occupant.permission)
            } else {
                m
            },
            None => m,
        },
        None => m,
    };
    match m.slot_at(address) {
        Some(occupant) => {
            lemma_revoke_sheds(m, occupant.permission);
            lemma_revoke_held(m, occupant.permission);
            lemma_revoke_keeps(m, occupant.permission);
        },
        None => {},
    }
    lemma_permissions_shed(m, m);
    lemma_permissions_only(m, m);
    lemma_shed_unaliased(m, revoked);
    assert(revoked.storable(value));
    lemma_store_unaliased(revoked, address, value);
    lemma_write_slot_held(m, address, Some(value));
}

/// Assigning a value that is allocated and can be stored keeps the machine
/// tidy.
pub proof fn lemma_assign_place_tidy(
    m: MachineModel,
    db: &Db,
    code: &BirRecord,
    target: TargetPlace,
    value: Value,
)
    requires
        m.allocated(value),
        m.storable(value),
    ensures
        m.tidy() && m.assign_place(db, code, target, value).0.fits() ==> m.assign_place(
            db,
            code,
            target,
            value,
        ).0.tidy(),
{
    lemma_permissions_shed(m, m);
    lemma_permissions_only(m, m);
    lemma_assign_place_grows(m, db, code, target, value);
    if target.index < code.data.tables.target_places@.len() {
        match code.data.tables.target_places@[target.index as int] {
            crate::bir::TargetPlaceData::Dot(base, name) => {
                lemma_traverse_sheds(m, db, code, base);
                lemma_traverse_to_object_held(m, db, code, base);
            },
            _ => {},
        }
    }
    let (m1, r) = m.traverse_to_place(db, code, target);
    match r {
        Ok(t) => {
            let m2 = m1.revoke_tenants(t.traversed, 0);
            lemma_revoke_tenants_shed(m1, t.traversed, 0);
            lemma_revoke_tenants_held(m1, t.traversed, 0);
            lemma_write_slot_grows(m2, t.address, Some(value));
            if m.tidy() && m.assign_place(db, code, target, value).0.fits() {
                assert(m1.fits());
                assert(m1.holds_allocated());
                lemma_shed_unaliased(m, m1);
                assert(m1.storable(value));
                assert(m2.holds_allocated());
                lemma_shed_unaliased(m1, m2);
                assert(m2.storable(value));
                lemma_write_value_tidy(m2, t.address, value);
            }
        },
        Err(_) => {
            if m.tidy() && m1.fits() {
                lemma_shed_unaliased(m, m1);
            }
        },
    }
}

/// What can be stored together in a machine can be stored together in a
/// machine to which it has shed, if it is allocated.
pub proof fn lemma_shed_storable_together(m: MachineModel, after: MachineModel, slots: Seq<Slot>)
    requires
        m.shed_to(after),
        m.holds_allocated(),
        m.slots_allocated(slots),
        m.storable_together(slots),
    ensures
        after.storable_together(slots),
{
    lemma_shed_unaliased(m, after);
    assert forall|k: int| 0 <= k < slots.len() implies match #[trigger] slots[k] {
        Some(value) => after.storable(value),
        None => true,
    } by {
        assert(m.slot_allocated(slots[k]));
        match slots[k] {
            Some(value) => {
                assert(m.storable(value));
            },
            None => {},
        }
    }
    assert forall|j: int, k: int| 0 <= j < slots.len() && 0 <= k < slots.len() && j != k implies match (
        #[trigger] slots[j],
        #[trigger] slots[k],
    ) {
        (Some(a), Some(b)) => a.permission == b.permission ==> !after.owned(a.permission),
        _ => true,
    } by {
        assert(m.slot_allocated(slots[j]));
    }
}

/// Giving several places only sheds, and what it gives can be stored
/// together.
pub proof fn lemma_give_places_tidy(
    m: MachineModel,
    db: &Db,
    code: &BirRecord,
    places: Seq<Place>,
    from: int,
    given: Seq<Slot>,
)
    requires
        m.slots_allocated(given),
        m.storable_together(given),
    ensures
        m.shed_to(m.give_places(db, code, places, from, given).0),
        m.tidy() && m.give_places(db, code, places, from, given).0.fits() ==> (m.give_places(
            db,
            code,
            places,
            from,
            given,
        ).1 matches Ok(slots) ==> m.give_places(db, code, places, from, given).0.storable_together(slots)),
    decreases places.len() - from,
{
    lemma_permissions_shed(m, m);
    if 0 <= from < places.len() {
        lemma_give_place_sheds(m, db, code, places[from], false);
        lemma_give_share_lease_held(m, db, code, places[from], false);
        let (m1, r) = m.give_place(db, code, places[from], false);
        match r {
            Ok(value) => {
                let next = given.push(Some(value));
                let result = m1.give_places(db, code, places, from + 1, next);
                lemma_give_places_grow(m1, db, code, places, from + 1, next);
                lemma_give_places_extend(m1, db, code, places, from + 1, next);
                if m.tidy() && result.0.fits() {
                    assert(m1.fits());
                    assert(m1.holds_allocated());
                    lemma_shed_unaliased(m, m1);
                    lemma_shed_storable_together(m, m1, given);
                    crate::step::held::lemma_extended_slots(m, m1, given);
                    assert(m1.allocated(value));
                    assert forall|k: int| 0 <= k < next.len() implies m1.slot_allocated(#[trigger] next[k]) by {
                        if k < given.len() {
                            assert(m1.slot_allocated(given[k]));
                        }
                    }
                    assert(m1.storable_together(next)) by {
                        assert forall|k: int| 0 <= k < next.len() implies match #[trigger] next[k] {
                            Some(v) => m1.storable(v),
                            None => true,
                        } by {
                            if k < given.len() {
                                assert(match given[k] {
                                    Some(v) => m1.storable(v),
                                    None => true,
                                });
                            }
                        }
                        assert forall|j: int, k: int|
                            0 <= j < next.len() && 0 <= k < next.len() && j != k implies match (
                            #[trigger] next[j],
                            #[trigger] next[k],
                        ) {
                            (Some(a), Some(b)) => a.permission == b.permission ==> !m1.owned(a.permission),
                            _ => true,
                        } by {
                            if j < given.len() && k < given.len() {
                                assert(match (given[j], given[k]) {
                                    (Some(a), Some(b)) => a.permission == b.permission ==> !m1.owned(
                                        a.permission,
                                    ),
                                    _ => true,
                                });
                            } else {
                                // One of the two is what was given last: the
                                // machine held it, so it was not free.
                                let old = if j < given.len() {
                                    j
                                } else {
                                    k
                                };
                                assert(m.slot_allocated(given[old]));
                                match given[old] {
                                    Some(b) => {
                                        assert(m.storable(b));
                                    },
                                    None => {},
                                }
                            }
                        }
                    }
                    lemma_give_places_tidy(m1, db, code, places, from + 1, next);
                    lemma_shed_trans(m, m1, result.0);
                } else {
                    lemma_give_places_shed_only(m1, db, code, places, from + 1, next);
                    lemma_shed_trans(m, m1, result.0);
                }
            },
            Err(_) => {},
        }
    }
}

/// Giving several places only sheds.
pub proof fn lemma_give_places_shed_only(
    m: MachineModel,
    db: &Db,
    code: &BirRecord,
    places: Seq<Place>,
    from: int,
    given: Seq<Slot>,
)
    ensures
        m.shed_to(m.give_places(db, code, places, from, given).0),
    decreases places.len() - from,
{
    lemma_permissions_shed(m, m);
    if 0 <= from < places.len() {
        lemma_give_place_sheds(m, db, code, places[from], false);
        lemma_give_share_lease_held(m, db, code, places[from], false);
        let (m1, r) = m.give_place(db, code, places[from], false);
        match r {
            Ok(value) => {
                lemma_give_places_shed_only(m1, db, code, places, from + 1, given.push(Some(value)));
                lemma_shed_trans(m, m1, m1.give_places(db, code, places, from + 1, given.push(Some(value))).0);
            },
            Err(_) => {},
        }
    }
}

/// Allocating a value whose slots hold what can be stored together keeps the
/// machine tidy, and the value can be stored.
pub proof fn lemma_new_value_tidy(m: MachineModel, data: ObjectModel, permission: PermissionData)
    requires
        permission == PermissionData::spec_my() || permission == PermissionData::spec_our(),
        m.slots_allocated(data.slots()),
        m.storable_together(data.slots()),
    ensures
        m.tidy() && m.new_value(data, permission).0.fits() ==> m.new_value(data, permission).0.tidy()
            && m.new_value(data, permission).0.storable(m.new_value(data, permission).1),
{
    let (after, value) = m.new_value(data, permission);
    lemma_new_value_held(m, data, permission);
    if m.tidy() && after.fits() {
        let here = m.objects.len() as int;
        assert(after.objects[here] == Some(data));
        assert forall|a: Location| !(a matches Location::Field(o, _) && o == here) implies #[trigger] after.value_at(
            a,
        ) == m.value_at(a) by {
        }
        lemma_fresh_is_free(m, value.permission);
        assert forall|a: Location| !#[trigger] after.holds_through(a, value.permission) by {
            match a {
                Location::Field(o, k) => {
                    if o == here {
                        if 0 <= k < data.slots().len() {
                            assert(m.slot_allocated(data.slots()[k]));
                        }
                    } else {
                        assert(after.value_at(a) == m.value_at(a));
                        assert(!m.holds_through(a, value.permission));
                    }
                },
                _ => {
                    assert(after.value_at(a) == m.value_at(a));
                    assert(!m.holds_through(a, value.permission));
                },
            }
        }
        assert forall|a: Location, b: Location, p: Permission|
            #[trigger] after.holds_through(a, p) && #[trigger] after.holds_through(b, p) && after.owned(
                p,
            ) implies a == b by {
            let a_new = a matches Location::Field(o, _) && o == here;
            let b_new = b matches Location::Field(o, _) && o == here;
            if p == value.permission {
                assert(!after.holds_through(a, p));
            } else {
                assert(m.owned(p));
                if !a_new {
                    assert(after.value_at(a) == m.value_at(a));
                }
                if !b_new {
                    assert(after.value_at(b) == m.value_at(b));
                }
                if !a_new && !b_new {
                    assert(m.holds_through(a, p) && m.holds_through(b, p));
                } else if a_new && b_new {
                    let j = a->Field_1;
                    let k = b->Field_1;
                    if j != k {
                        assert(match (data.slots()[j], data.slots()[k]) {
                            (Some(x), Some(y)) => x.permission == y.permission ==> !m.owned(x.permission),
                            _ => true,
                        });
                    }
                } else {
                    let k = if a_new {
                        a->Field_1
                    } else {
                        b->Field_1
                    };
                    let other = if a_new {
                        b
                    } else {
                        a
                    };
                    assert(match data.slots()[k] {
                        Some(x) => m.storable(x),
                        None => true,
                    });
                    assert(m.holds_through(other, p));
                }
            }
        }
    }
}

/// The variables of a frame made for a call with arguments that can be
/// stored together can be stored together.
pub proof fn lemma_for_call_storable(m: MachineModel, db: &Db, bir: crate::bir::Bir, arguments: Seq<Slot>)
    requires
        m.storable_together(arguments),
    ensures
        m.storable_together(FrameModel::for_call(db, bir, arguments).variables),
{
    let variables = FrameModel::for_call(db, bir, arguments).variables;
    assert forall|k: int| 0 <= k < variables.len() implies match #[trigger] variables[k] {
        Some(value) => m.storable(value),
        None => true,
    } by {
        if k < arguments.len() {
            assert(match arguments[k] {
                Some(value) => m.storable(value),
                None => true,
            });
        }
    }
    assert forall|j: int, k: int|
        0 <= j < variables.len() && 0 <= k < variables.len() && j != k implies match (
        #[trigger] variables[j],
        #[trigger] variables[k],
    ) {
        (Some(a), Some(b)) => a.permission == b.permission ==> !m.owned(a.permission),
        _ => true,
    } by {
        if j < arguments.len() && k < arguments.len() {
            assert(match (arguments[j], arguments[k]) {
                (Some(a), Some(b)) => a.permission == b.permission ==> !m.owned(a.permission),
                _ => true,
            });
        }
    }
}

/// Pushing a frame whose variables can be stored together keeps the machine
/// tidy.
pub proof fn lemma_push_frame_tidy(m: MachineModel, frame: FrameModel)
    requires
        m.tidy(),
        m.slots_allocated(frame.variables),
        m.storable_together(frame.variables),
        frame.in_flight_value is None,
    ensures
        m.push_frame(frame).tidy(),
{
    let after = m.push_frame(frame);
    crate::step::held::lemma_push_frame_held(m, frame);
    let here = m.stack.len() as int;
    assert(after.stack[here] == frame);
    assert forall|a: Location| !((a matches Location::Variable(f, _) && f == here) || (
    a matches Location::InFlight(f) && f == here)) implies #[trigger] after.value_at(a) == m.value_at(a) by {
    }
    assert forall|a: Location, b: Location, p: Permission|
        #[trigger] after.holds_through(a, p) && #[trigger] after.holds_through(b, p) && after.owned(
            p,
        ) implies a == b by {
        let a_new = a matches Location::Variable(f, _) && f == here;
        let b_new = b matches Location::Variable(f, _) && f == here;
        if !a_new {
            assert(after.value_at(a) == m.value_at(a));
        }
        if !b_new {
            assert(after.value_at(b) == m.value_at(b));
        }
        if !a_new && !b_new {
            assert(m.holds_through(a, p) && m.holds_through(b, p));
        } else if a_new && b_new {
            let j = a->Variable_1;
            let k = b->Variable_1;
            if j != k {
                assert(match (frame.variables[j], frame.variables[k]) {
                    (Some(x), Some(y)) => x.permission == y.permission ==> !m.owned(x.permission),
                    _ => true,
                });
            }
        } else {
            let k = if a_new {
                a->Variable_1
            } else {
                b->Variable_1
            };
            let other = if a_new {
                b
            } else {
                a
            };
            assert(match frame.variables[k] {
                Some(x) => m.storable(x),
                None => true,
            });
            assert(m.holds_through(other, p));
        }
    }
}

/// Concatenating only sheds.
pub proof fn lemma_concatenate_sheds(
    m: MachineModel,
    db: &Db,
    code: &BirRecord,
    places: Seq<Place>,
    from: int,
    text: Seq<char>,
)
    ensures
        m.shed_to(m.concatenate(db, code, places, from, text).0),
    decreases places.len() - from,
{
    lemma_permissions_shed(m, m);
    if 0 <= from < places.len() {
        lemma_read_place_sheds(m, db, code, places[from]);
        lemma_read_place_held(m, db, code, places[from]);
        let (m1, r) = m.read_place(db, code, places[from]);
        match r {
            Ok(object) => match m1.object(object) {
                Some(data) => match display_text(data) {
                    Some(part) => {
                        lemma_concatenate_sheds(m1, db, code, places, from + 1, text + part);
                        lemma_shed_trans(m, m1, m1.concatenate(db, code, places, from + 1, text + part).0);
                    },
                    None => {},
                },
                None => {},
            },
            Err(_) => {},
        }
    }
}

/// Nothing can be stored together with nothing.
pub proof fn lemma_no_slots_storable(m: MachineModel, slots: Seq<Slot>)
    requires
        slots.len() == 0,
    ensures
        m.storable_together(slots),
        m.slots_allocated(slots),
{
}

/// Allocating a primitive after the machine has only shed keeps it tidy, and
/// the primitive can be stored.
pub proof fn lemma_shed_then_new_tidy(
    m: MachineModel,
    shed: MachineModel,
    data: ObjectModel,
    permission: PermissionData,
)
    requires
        m.shed_to(shed),
        m.keeps_held(shed),
        data.slots().len() == 0,
        permission == PermissionData::spec_my() || permission == PermissionData::spec_our(),
    ensures
        m.tidy() && shed.new_value(data, permission).0.fits() ==> shed.new_value(data, permission).0.tidy()
            && shed.new_value(data, permission).0.storable(shed.new_value(data, permission).1),
{
    lemma_no_slots_storable(shed, data.slots());
    lemma_new_value_held(shed, data, permission);
    if m.tidy() && shed.new_value(data, permission).0.fits() {
        lemma_shed_unaliased(m, shed);
    }
    lemma_new_value_tidy(shed, data, permission);
}

/// Evaluating an expression keeps the machine tidy, and what it produces can
/// be stored.
pub proof fn lemma_eval_expr_tidy(m: MachineModel, db: &Db, code: &BirRecord, expr: Expr)
    ensures
        m.tidy() && m.eval_expr(db, code, expr).0.fits() ==> m.eval_expr(db, code, expr).0.tidy() && (
        m.eval_expr(db, code, expr).1 matches Ok(v) ==> m.eval_expr(db, code, expr).0.storable(v)),
{
    lemma_permissions_shed(m, m);
    lemma_permissions_only(m, m);
    lemma_eval_expr_held(m, db, code, expr);
    match code.data.tables.exprs@[expr.index as int] {
        ExprData::BooleanLiteral(b) => {
            lemma_shed_then_new_tidy(m, m, ObjectModel::Bool(b), PermissionData::spec_our());
        },
        ExprData::SignedIntegerLiteral(n) => {
            lemma_shed_then_new_tidy(m, m, ObjectModel::Int(n), PermissionData::spec_our());
        },
        ExprData::UnsignedIntegerLiteral(n) => {
            lemma_shed_then_new_tidy(m, m, ObjectModel::Uint(n), PermissionData::spec_our());
        },
        ExprData::IntegerLiteral(n) => {
            lemma_shed_then_new_tidy(m, m, ObjectModel::Uint(n), PermissionData::spec_our());
        },
        ExprData::FloatLiteral(bits) => {
            lemma_shed_then_new_tidy(m, m, ObjectModel::Float(bits), PermissionData::spec_our());
        },
        ExprData::StringLiteral(word) => {
            lemma_shed_then_new_tidy(m, m, ObjectModel::String(word.text(db)), PermissionData::spec_our());
        },
        ExprData::Unit => {
            lemma_shed_then_new_tidy(m, m, ObjectModel::Unit, PermissionData::spec_our());
        },
        ExprData::IntoShared(place) => {
            lemma_share_lease_shed(m, db, code, place);
            if m.tidy() {
                lemma_shed_unaliased(m, m.share_place(db, code, place).0);
            }
        },
        ExprData::Share(place) => {
            lemma_share_lease_shed(m, db, code, place);
            if m.tidy() {
                lemma_shed_unaliased(m, m.share_place(db, code, place).0);
            }
        },
        ExprData::Lease(place) => {
            lemma_share_lease_shed(m, db, code, place);
            if m.tidy() {
                lemma_shed_unaliased(m, m.lease_place(db, code, place).0);
            }
        },
        ExprData::Give(place) => {
            lemma_give_place_sheds(m, db, code, place, false);
            if m.tidy() {
                lemma_shed_unaliased(m, m.give_place(db, code, place, false).0);
            }
        },
        ExprData::Tuple(places) => {
            lemma_no_slots_storable(m, seq![]);
            lemma_give_places_tidy(m, db, code, places@, 0, seq![]);
            crate::step::held::lemma_give_places_held(m, db, code, places@, 0, seq![]);
            let (m1, r) = m.give_places(db, code, places@, 0, seq![]);
            match r {
                Ok(fields) => {
                    lemma_new_value_held(m1, ObjectModel::Tuple { fields }, PermissionData::spec_my());
                    if m.tidy() && m.eval_expr(db, code, expr).0.fits() {
                        lemma_shed_unaliased(m, m1);
                        lemma_new_value_tidy(m1, ObjectModel::Tuple { fields }, PermissionData::spec_my());
                    }
                },
                Err(_) => {
                    if m.tidy() {
                        lemma_shed_unaliased(m, m1);
                    }
                },
            }
        },
        ExprData::Concatenate(places) => {
            lemma_concatenate_sheds(m, db, code, places@, 0, Seq::empty());
            lemma_concatenate_held(m, db, code, places@, 0, Seq::empty());
            let (m1, r) = m.concatenate(db, code, places@, 0, Seq::empty());
            match r {
                Ok(text) => {
                    lemma_shed_then_new_tidy(m, m1, ObjectModel::String(text), PermissionData::spec_our());
                },
                Err(_) => {
                    if m.tidy() {
                        lemma_shed_unaliased(m, m1);
                    }
                },
            }
        },
        ExprData::Op(lhs, op, rhs) => {
            lemma_read_place_sheds(m, db, code, lhs);
            lemma_read_place_held(m, db, code, lhs);
            let (m1, r) = m.read_place(db, code, lhs);
            lemma_read_place_sheds(m1, db, code, rhs);
            lemma_read_place_held(m1, db, code, rhs);
            let (m2, r2) = m1.read_place(db, code, rhs);
            lemma_shed_trans(m, m1, m2);
            if m.tidy() {
                lemma_shed_unaliased(m, m1);
                lemma_shed_unaliased(m, m2);
            }
            match (r, r2) {
                (Ok(left), Ok(right)) => match (m2.object(left), m2.object(right)) {
                    (Some(l), Some(r)) => {
                        lemma_primitive_slots(op, l, r);
                        match crate::step::apply_op::apply_op_spec(op, l, r) {
                            Ok(data) => {
                                lemma_shed_then_new_tidy(m, m2, data, PermissionData::spec_our());
                            },
                            Err(_) => {},
                        }
                    },
                    _ => {},
                },
                _ => {},
            }
        },
        ExprData::Unary(op, rhs) => {
            lemma_read_place_sheds(m, db, code, rhs);
            lemma_read_place_held(m, db, code, rhs);
            let (m1, r) = m.read_place(db, code, rhs);
            if m.tidy() {
                lemma_shed_unaliased(m, m1);
            }
            match r {
                Ok(right) => match m1.object(right) {
                    Some(r) => {
                        lemma_primitive_slots(op, r, r);
                        match crate::step::apply_op::apply_unary_spec(op, r) {
                            Ok(data) => {
                                lemma_shed_then_new_tidy(m, m1, data, PermissionData::spec_our());
                            },
                            Err(_) => {},
                        }
                    },
                    None => {},
                },
                Err(_) => {},
            }
        },
        ExprData::Error => {},
    }
}

/// Executing the action of a statement keeps the machine tidy.
pub proof fn lemma_step_statement_tidy(
    m: MachineModel,
    db: &Db,
    code: &BirRecord,
    point: ControlPoint,
    action: ActionData,
    host_ok: bool,
)
    ensures
        m.tidy() && m.step_statement(db, code, point, action, host_ok).0.fits() ==> m.step_statement(
            db,
            code,
            point,
            action,
            host_ok,
        ).0.tidy(),
{
    lemma_permissions_shed(m, m);
    lemma_permissions_only(m, m);
    match action {
        ActionData::AssignExpr(target, expr) => {
            lemma_eval_expr_tidy(m, db, code, expr);
            lemma_eval_expr_held(m, db, code, expr);
            let (m1, r) = m.eval_expr(db, code, expr);
            match r {
                Ok(value) => {
                    lemma_assign_place_grows(m1, db, code, target, value);
                    if m.tidy() && m.step_statement(db, code, point, action, host_ok).0.fits() {
                        lemma_assign_place_tidy(m1, db, code, target, value);
                    }
                },
                Err(_) => {},
            }
        },
        ActionData::Clear(local) => {
            lemma_clear_sheds(m, SlotAddress::Local(local));
            lemma_write_slot_held(m, SlotAddress::Local(local), None);
            if m.tidy() {
                lemma_shed_unaliased(m, m.clear(local));
            }
        },
        ActionData::BreakpointEnd(_, _, _, place) => {
            match place {
                Some(place) => {
                    lemma_read_place_sheds(m, db, code, place);
                    lemma_read_place_held(m, db, code, place);
                    if m.tidy() {
                        lemma_shed_unaliased(m, m.peek_place(db, code, place).0);
                    }
                },
                None => {},
            }
        },
        _ => {},
    }
}

/// A machine that has only shed, that fits and holds nothing that dangles is
/// tidy if the machine it came from is.
pub proof fn lemma_shed_tidy(m: MachineModel, after: MachineModel)
    requires
        m.shed_to(after),
        m.tidy(),
        after.fits(),
        after.holds_allocated(),
    ensures
        after.tidy(),
        forall|v: Value| m.storable(v) && m.permission(v.permission) is Some ==> #[trigger] after.storable(v),
{
    lemma_shed_unaliased(m, after);
}

/// Calling keeps the machine tidy, and what a call returns can be stored.
pub proof fn lemma_call_tidy(
    m: MachineModel,
    db: &Db,
    code: &BirRecord,
    point: ControlPoint,
    function: Place,
    arguments: Seq<Place>,
    labels: Seq<Option<Name>>,
)
    ensures
        m.tidy() && m.call(db, code, point, function, arguments, labels).0.fits() ==> m.call(
            db,
            code,
            point,
            function,
            arguments,
            labels,
        ).0.tidy() && (m.call(db, code, point, function, arguments, labels).1 matches Ok(
            CallResult::Returned(v),
        ) ==> m.call(db, code, point, function, arguments, labels).0.storable(v)),
{
    let last = m.call(db, code, point, function, arguments, labels).0;
    lemma_call_held(m, db, code, point, function, arguments, labels);
    lemma_read_place_sheds(m, db, code, function);
    lemma_read_place_held(m, db, code, function);
    let (m1, r) = m.read_place(db, code, function);
    if m.tidy() && last.fits() {
        match r {
            Ok(object) => match m1.object(object) {
                Some(data) => match callee_of(data) {
                    Some(callee) => match parameter_names(db, callee) {
                        Some(expected) => if !(crate::step::call::labels_match(
                            &code.data.tables,
                            expected,
                            labels,
                        ) && arguments.len() == labels.len()) {
                            lemma_shed_tidy(m, m1);
                        } else {
                            let (m2, r2) = m1.give_places(db, code, arguments, 0, seq![]);
                            lemma_give_places_held(m1, db, code, arguments, 0, seq![]);
                            lemma_give_places_grow(m1, db, code, arguments, 0, seq![]);
                            lemma_give_places_shed_only(m1, db, code, arguments, 0, seq![]);
                            lemma_no_slots_storable(m1, seq![]);
                            match r2 {
                                Ok(given) => {
                                    assert(last == m2.invoke(db, callee, given).0);
                                    match callee {
                                        Callee::Class(class) => {
                                            lemma_new_value_held(
                                                m2,
                                                ObjectModel::Instance { class, fields: given },
                                                PermissionData::spec_my(),
                                            );
                                        },
                                        Callee::Function(f) => {
                                            lemma_new_value_held(
                                                m2,
                                                ObjectModel::Thunk {
                                                    callee: ThunkCallee::Function(f),
                                                    arguments: given,
                                                },
                                                PermissionData::spec_my(),
                                            );
                                        },
                                        Callee::Intrinsic(i) => {
                                            lemma_new_value_held(
                                                m2,
                                                ObjectModel::Thunk {
                                                    callee: ThunkCallee::Intrinsic(i),
                                                    arguments: given,
                                                },
                                                PermissionData::spec_my(),
                                            );
                                        },
                                    }
                                    assert(m2.fits());
                                    assert(m1.fits());
                                    lemma_shed_tidy(m, m1);
                                    lemma_give_places_tidy(m1, db, code, arguments, 0, seq![]);
                                    lemma_shed_tidy(m1, m2);
                                    assert(m2.slots_allocated(given));
                                    assert(m2.storable_together(given));
                                    match callee {
                                        Callee::Class(class) => {
                                            lemma_new_value_tidy(
                                                m2,
                                                ObjectModel::Instance { class, fields: given },
                                                PermissionData::spec_my(),
                                            );
                                        },
                                        Callee::Function(f) => {
                                            lemma_new_value_tidy(
                                                m2,
                                                ObjectModel::Thunk {
                                                    callee: ThunkCallee::Function(f),
                                                    arguments: given,
                                                },
                                                PermissionData::spec_my(),
                                            );
                                            lemma_for_call_held(m2, db, f.data(db).bir, given);
                                            lemma_for_call_storable(m2, db, f.data(db).bir, given);
                                            lemma_push_frame_tidy(
                                                m2,
                                                FrameModel::for_call(db, f.data(db).bir, given),
                                            );
                                        },
                                        Callee::Intrinsic(i) => {
                                            lemma_new_value_tidy(
                                                m2,
                                                ObjectModel::Thunk {
                                                    callee: ThunkCallee::Intrinsic(i),
                                                    arguments: given,
                                                },
                                                PermissionData::spec_my(),
                                            );
                                        },
                                    }
                                },
                                Err(_) => {
                                    assert(last == m2);
                                    lemma_shed_tidy(m, m1);
                                    lemma_shed_tidy(m1, m2);
                                },
                            }
                        },
                        None => {
                            lemma_shed_tidy(m, m1);
                        },
                    },
                    None => {
                        lemma_shed_tidy(m, m1);
                    },
                },
                None => {
                    lemma_shed_tidy(m, m1);
                },
            },
            Err(_) => {
                lemma_shed_tidy(m, m1);
            },
        }
    }
}

/// Emptying a slot of an object only sheds, and leaves what the machine
/// holds elsewhere.
pub proof fn lemma_empty_slot_sheds(m: MachineModel, o: Object, k: int)
    ensures
        m.shed_to(m.set_object_slot(o, k, None)),
        m.set_object_slot(o, k, None).permissions == m.permissions,
        m.object(o) is Some && 0 <= k < m.object(o).unwrap().slots().len() ==> m.set_object_slot(
            o,
            k,
            None,
        ).value_at(Location::Field(o.index as int, k)) is None && m.set_object_slot(o, k, None).object(o)
            is Some && m.set_object_slot(o, k, None).object(o).unwrap().slots().len() == m.object(
            o,
        ).unwrap().slots().len(),
{
    let after = m.set_object_slot(o, k, None);
    match m.object(o) {
        Some(data) => {
            if 0 <= k < data.slots().len() {
                lemma_with_slots(data, data.slots().update(k, None));
                assert(after.objects[o.index as int] == Some(data.with_slots(data.slots().update(k, None))));
                assert forall|a: Location, p: Permission| #[trigger]
                    after.holds_through(a, p) implies m.holds_through(a, p) by {
                    match a {
                        Location::Field(x, j) => {
                            if x == o.index && j != k {
                                assert(after.value_at(a) == m.value_at(a));
                            }
                        },
                        _ => {},
                    }
                }
            }
        },
        None => {},
    }
}

/// Emptying the slots of an object only sheds, and then the object holds
/// nothing in those slots.
pub proof fn lemma_empty_slots_sheds(m: MachineModel, o: Object, from: int)
    requires
        0 <= from,
    ensures
        m.shed_to(m.empty_slots(o, from)),
        m.empty_slots(o, from).permissions == m.permissions,
        forall|k: int| from <= k ==> (#[trigger] m.empty_slots(o, from).value_at(
            Location::Field(o.index as int, k),
        )) is None,
    decreases
        (match m.object(o) {
            Some(data) => data.slots().len() - from,
            None => 0,
        }),
{
    lemma_permissions_shed(m, m);
    let after = m.empty_slots(o, from);
    match m.object(o) {
        Some(data) => if 0 <= from < data.slots().len() {
            lemma_empty_slot_sheds(m, o, from);
            let emptied = m.set_object_slot(o, from, None);
            lemma_empty_slots_sheds(emptied, o, from + 1);
            lemma_shed_trans(m, emptied, after);
            assert forall|k: int| from <= k implies (#[trigger] after.value_at(
                Location::Field(o.index as int, k),
            )) is None by {
                if k == from {
                    let here = Location::Field(o.index as int, k);
                    match after.value_at(here) {
                        Some(v) => {
                            assert(after.holds_through(here, v.permission));
                            assert(emptied.holds_through(here, v.permission));
                        },
                        None => {},
                    }
                }
            }
        },
        None => {},
    }
}

/// Once the slots of an object are emptied, what they held can be stored
/// together.
pub proof fn lemma_emptied_storable(m: MachineModel, o: Object)
    requires
        m.unaliased(),
        m.object(o) is Some,
    ensures
        m.empty_slots(o, 0).storable_together(m.object(o).unwrap().slots()),
{
    let after = m.empty_slots(o, 0);
    let slots = m.object(o).unwrap().slots();
    lemma_empty_slots_sheds(m, o, 0);
    assert forall|k: int| 0 <= k < slots.len() implies match #[trigger] slots[k] {
        Some(value) => after.storable(value),
        None => true,
    } by {
        match slots[k] {
            Some(value) => {
                let here = Location::Field(o.index as int, k);
                assert(m.value_at(here) == Some(value));
                if after.owned(value.permission) {
                    assert forall|a: Location| !#[trigger] after.holds_through(a, value.permission) by {
                        if after.holds_through(a, value.permission) {
                            assert(m.holds_through(a, value.permission));
                            assert(m.holds_through(here, value.permission));
                            assert(a == here);
                            assert(after.value_at(here) is None);
                        }
                    }
                }
            },
            None => {},
        }
    }
    assert forall|j: int, k: int| 0 <= j < slots.len() && 0 <= k < slots.len() && j != k implies match (
        #[trigger] slots[j],
        #[trigger] slots[k],
    ) {
        (Some(a), Some(b)) => a.permission == b.permission ==> !after.owned(a.permission),
        _ => true,
    } by {
        match (slots[j], slots[k]) {
            (Some(a), Some(b)) => {
                if a.permission == b.permission && after.owned(a.permission) {
                    let first = Location::Field(o.index as int, j);
                    let second = Location::Field(o.index as int, k);
                    assert(m.value_at(first) == Some(a));
                    assert(m.value_at(second) == Some(b));
                    assert(m.holds_through(first, a.permission));
                    assert(m.holds_through(second, a.permission));
                    assert(first != second);
                }
            },
            _ => {},
        }
    }
}

/// Whether the values that `result` hands out can be stored together.
pub open spec fn await_storable(m: MachineModel, result: AwaitResultModel) -> bool {
    match result {
        AwaitResultModel::PushedNewFrame => true,
        AwaitResultModel::RustThunk(thunk) => m.storable_together(thunk.arguments),
    }
}

/// Awaiting keeps the machine tidy, and the arguments that it hands out can
/// be stored together.
pub proof fn lemma_await_tidy(m: MachineModel, db: &Db, code: &BirRecord, place: Place)
    ensures
        m.tidy() && m.await_thunk(db, code, place).0.fits() ==> m.await_thunk(db, code, place).0.tidy() && (
        m.await_thunk(db, code, place).1 matches Ok(result) ==> await_storable(
            m.await_thunk(db, code, place).0,
            result,
        )),
{
    let last = m.await_thunk(db, code, place).0;
    lemma_await_held(m, db, code, place);
    lemma_give_place_sheds(m, db, code, place, false);
    lemma_give_share_lease_held(m, db, code, place, false);
    let (m1, r) = m.give_place(db, code, place, false);
    if m.tidy() && last.fits() {
        match r {
            Ok(value) => match m1.object(value.object) {
                Some(ObjectModel::Thunk { callee, arguments }) => {
                    let m2 = m1.empty_slots(value.object, 0);
                    lemma_empty_slots_held(m1, value.object, 0);
                    lemma_empty_slots_sheds(m1, value.object, 0);
                    match callee {
                        ThunkCallee::Function(f) => {
                            lemma_push_frame_held(m2, FrameModel::for_call(db, f.data(db).bir, arguments));
                        },
                        _ => {},
                    }
                    assert(m1.fits());
                    lemma_shed_tidy(m, m1);
                    let pushes = match callee {
                        ThunkCallee::Function(f) => f.valid(db) && f.data(db).bir.valid(db),
                        ThunkCallee::Intrinsic(_) => true,
                    };
                    if pushes {
                        assert(m2.fits());
                        lemma_shed_tidy(m1, m2);
                        lemma_emptied_storable(m1, value.object);
                        assert(m1.entry_allocated(value.object.index as int));
                        assert(m1.slots_allocated(arguments));
                        lemma_extended_slots(m1, m2, arguments);
                        match callee {
                            ThunkCallee::Function(f) => {
                                lemma_for_call_held(m2, db, f.data(db).bir, arguments);
                                lemma_for_call_storable(m2, db, f.data(db).bir, arguments);
                                lemma_push_frame_tidy(m2, FrameModel::for_call(db, f.data(db).bir, arguments));
                            },
                            _ => {},
                        }
                    }
                },
                _ => {
                    lemma_shed_tidy(m, m1);
                },
            },
            Err(_) => {
                lemma_shed_tidy(m, m1);
            },
        }
    }
}

/// Collecting only sheds.
pub proof fn lemma_gc_sheds(m: MachineModel, extra: Seq<Value>)
    ensures
        m.shed_to(m.gc(extra)),
{
    let after = m.gc(extra);
    assert forall|a: Location, p: Permission| #[trigger] after.holds_through(a, p) implies m.holds_through(
        a,
        p,
    ) by {
    }
    assert forall|p: Permission| #[trigger] after.owned(p) implies m.owned(p) || m.permission(p) is None by {
    }
}

/// Popping a frame only sheds.
pub proof fn lemma_pop_frame_sheds(m: MachineModel)
    ensures
        m.shed_to(m.pop_frame()),
{
}

/// Moving the top frame only sheds.
pub proof fn lemma_set_pc_sheds(m: MachineModel, pc: ProgramCounter)
    ensures
        m.shed_to(m.set_pc(pc)),
{
    let after = m.set_pc(pc);
    assert forall|a: Location| #[trigger] after.value_at(a) == m.value_at(a) by {
    }
    assert forall|a: Location, p: Permission| #[trigger] after.holds_through(a, p) implies m.holds_through(
        a,
        p,
    ) by {
        assert(after.value_at(a) == m.value_at(a));
    }
}

/// Resuming a frame with a value that is allocated and can be stored keeps
/// the machine tidy.
pub proof fn lemma_resume_with_tidy(m: MachineModel, db: &Db, value: Value)
    requires
        m.allocated(value),
        m.storable(value),
    ensures
        m.tidy() && m.resume_with(db, value).0.fits() ==> m.resume_with(db, value).0.tidy(),
{
    lemma_resume_with_held(m, db, value);
    match m.top_frame() {
        Some(frame) => match frame.awaiting(db) {
            Some((target, next)) => {
                let code = frame.pc.bir.record(db);
                lemma_assign_place_grows(m, db, &code, target, value);
                lemma_assign_place_tidy(m, db, &code, target, value);
                let (m1, r) = m.assign_place(db, &code, target, value);
                match r {
                    Ok(()) => {
                        lemma_set_pc_held(m1, frame.pc.spec_move_to_block(next));
                        lemma_set_pc_sheds(m1, frame.pc.spec_move_to_block(next));
                        if m.tidy() && m.resume_with(db, value).0.fits() {
                            lemma_shed_tidy(m1, m1.set_pc(frame.pc.spec_move_to_block(next)));
                        }
                    },
                    Err(_) => {},
                }
            },
            None => {},
        },
        None => {},
    }
}

/// Whether the values that `flow` hands to the caller of a step can be
/// stored.
pub open spec fn flow_storable(m: MachineModel, flow: ControlFlowModel) -> bool {
    match flow {
        ControlFlowModel::Next => true,
        ControlFlowModel::Done(_, value) => m.storable(value),
        ControlFlowModel::Await(thunk) => m.storable_together(thunk.arguments),
    }
}

/// Returning a value that is allocated and can be stored keeps the machine
/// tidy, and the value that leaves the last frame can be stored.
pub proof fn lemma_return_value_tidy(m: MachineModel, db: &Db, pc: ProgramCounter, value: Value)
    requires
        m.allocated(value),
        m.storable(value),
    ensures
        m.tidy() && m.return_value(db, pc, value).0.fits() ==> m.return_value(db, pc, value).0.tidy() && (
        m.return_value(db, pc, value).1 matches Ok(flow) ==> flow_storable(
            m.return_value(db, pc, value).0,
            flow,
        )),
{
    lemma_clear_from_held(m, 0);
    lemma_clear_from_sheds(m, 0);
    let m1 = m.clear_frame();
    lemma_gc_held(m1, seq![value]);
    lemma_gc_sheds(m1, seq![value]);
    let m2 = m1.gc(seq![value]);
    assert(seq![value][0] == value);
    let m3 = m2.pop_frame();
    lemma_pop_frame_sheds(m2);
    lemma_resume_with_held(m3, db, value);
    if m.tidy() && m.return_value(db, pc, value).0.fits() {
        assert(m3.fits());
        lemma_shed_tidy(m, m1);
        assert(m1.allocated(value));
        lemma_shed_tidy(m1, m2);
        assert(m2.allocated(value));
        assert forall|f: int| 0 <= f < m3.stack.len() implies #[trigger] m3.frame_allocated(f) by {
            assert(m2.frame_allocated(f));
        }
        assert forall|o: int| 0 <= o < m3.objects.len() implies #[trigger] m3.entry_allocated(o) by {
            assert(m2.entry_allocated(o));
        }
        lemma_shed_tidy(m2, m3);
        assert(m3.allocated(value));
        assert(m3.storable(value));
        if m3.stack.len() != 0 {
            lemma_resume_with_tidy(m3, db, value);
        }
    }
}

/// Executing a terminator keeps the machine tidy, and what it hands out can
/// be stored.
pub proof fn lemma_step_terminator_tidy(
    m: MachineModel,
    db: &Db,
    code: &BirRecord,
    pc: ProgramCounter,
    point: ControlPoint,
)
    ensures
        m.tidy() && m.step_terminator(db, code, pc, point).0.fits() ==> m.step_terminator(
            db,
            code,
            pc,
            point,
        ).0.tidy() && (m.step_terminator(db, code, pc, point).1 matches Ok(flow) ==> flow_storable(
            m.step_terminator(db, code, pc, point).0,
            flow,
        )),
{
    let last = m.step_terminator(db, code, pc, point).0;
    lemma_step_terminator_held(m, db, code, pc, point);
    lemma_permissions_shed(m, m);
    if m.tidy() && last.fits() {
        match code.data.tables.control_points@[point.index as int] {
            ControlPointData::Terminator(TerminatorData::Goto(b)) => {
                lemma_set_pc_sheds(m, pc.spec_move_to_block(b));
                lemma_shed_tidy(m, last);
            },
            ControlPointData::Terminator(TerminatorData::StartAtomic(b)) => {
                lemma_set_pc_sheds(m, pc.spec_move_to_block(b));
                lemma_shed_tidy(m, last);
            },
            ControlPointData::Terminator(TerminatorData::EndAtomic(b)) => {
                lemma_set_pc_sheds(m, pc.spec_move_to_block(b));
                lemma_shed_tidy(m, last);
            },
            ControlPointData::Terminator(TerminatorData::If(place, if_true, if_false)) => {
                lemma_read_place_sheds(m, db, code, place);
                lemma_read_place_held(m, db, code, place);
                let (m1, r) = m.read_place(db, code, place);
                lemma_shed_tidy(m, m1);
                if last != m1 {
                    lemma_set_pc_sheds(m1, pc.spec_move_to_block(if_true));
                    lemma_set_pc_sheds(m1, pc.spec_move_to_block(if_false));
                    lemma_shed_tidy(m1, last);
                }
            },
            ControlPointData::Terminator(
                TerminatorData::Assign(
                    destination,
                    TerminatorExpr::Call { function, arguments, labels },
                    next,
                ),
            ) => {
                lemma_call_tidy(m, db, code, point, function, arguments@, labels@);
                lemma_call_held(m, db, code, point, function, arguments@, labels@);
                let (m1, r) = m.call(db, code, point, function, arguments@, labels@);
                match r {
                    Ok(CallResult::Returned(value)) => {
                        lemma_assign_place_grows(m1, db, code, destination, value);
                        let (m2, r2) = m1.assign_place(db, code, destination, value);
                        lemma_set_pc_held(m2, pc.spec_move_to_block(next));
                        assert(m2.fits());
                        assert(m1.fits());
                        lemma_assign_place_tidy(m1, db, code, destination, value);
                        match r2 {
                            Ok(()) => {
                                lemma_set_pc_sheds(m2, pc.spec_move_to_block(next));
                                lemma_shed_tidy(m2, last);
                            },
                            Err(_) => {},
                        }
                    },
                    _ => {},
                }
            },
            ControlPointData::Terminator(
                TerminatorData::Assign(_, TerminatorExpr::Await(place), _),
            ) => {
                lemma_await_tidy(m, db, code, place);
            },
            ControlPointData::Terminator(TerminatorData::Return(place)) => {
                lemma_give_place_sheds(m, db, code, place, true);
                lemma_give_share_lease_held(m, db, code, place, true);
                let (m1, r) = m.give_place(db, code, place, true);
                match r {
                    Ok(value) => {
                        crate::step::held::lemma_return_value_grows(m1, db, pc, value);
                        assert(m1.fits());
                        lemma_shed_tidy(m, m1);
                        lemma_return_value_tidy(m1, db, pc, value);
                    },
                    Err(_) => {
                        lemma_shed_tidy(m, m1);
                    },
                }
            },
            _ => {},
        }
    }
}

/// A step keeps the machine tidy: what is uniquely owned stays held once,
/// and what the step hands to its caller can be stored.
pub proof fn lemma_step_tidy(m: MachineModel, db: &Db, host_ok: bool)
    ensures
        m.tidy() && m.step(db, host_ok).0.fits() ==> m.step(db, host_ok).0.tidy() && (m.step(
            db,
            host_ok,
        ).1 matches Ok(flow) ==> flow_storable(m.step(db, host_ok).0, flow)),
{
    let last = m.step(db, host_ok).0;
    lemma_step_held(m, db, host_ok);
    let frame = m.stack.last();
    let pc = frame.pc;
    let code = pc.bir.record(db);
    let point = frame.point(db).unwrap();
    if m.tidy() && last.fits() {
        match code.data.tables.control_points@[point.index as int] {
            ControlPointData::Statement(s) => {
                lemma_step_statement_tidy(m, db, &code, point, s.action, host_ok);
                lemma_step_statement_held(m, db, &code, point, s.action, host_ok);
                let (m1, r) = m.step_statement(db, &code, point, s.action, host_ok);
                match r {
                    Ok(()) => {
                        let next = ProgramCounter { statement: (pc.statement + 1) as usize, ..pc };
                        let m2 = m1.set_pc(next);
                        lemma_set_pc_held(m1, next);
                        lemma_set_pc_sheds(m1, next);
                        lemma_gc_held(m2, seq![]);
                        lemma_gc_sheds(m2, seq![]);
                        assert(m1.fits());
                        lemma_shed_tidy(m1, m2);
                        lemma_shed_tidy(m2, last);
                    },
                    Err(_) => {},
                }
            },
            ControlPointData::Terminator(_) => {
                lemma_step_terminator_tidy(m, db, &code, pc, point);
                lemma_step_terminator_held(m, db, &code, pc, point);
                let (m1, r) = m.step_terminator(db, &code, pc, point);
                match r {
                    Ok(flow) => {
                        lemma_gc_held(m1, pinned(flow));
                        lemma_gc_sheds(m1, pinned(flow));
                        assert(m1.fits());
                        lemma_pinned_kept(m1, flow);
                        lemma_shed_tidy(m1, last);
                        match flow {
                            ControlFlowModel::Await(thunk) => {
                                lemma_shed_storable_together(m1, last, thunk.arguments);
                            },
                            _ => {},
                        }
                    },
                    Err(_) => {},
                }
            },
        }
    }
}

} // verus!
