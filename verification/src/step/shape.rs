//! The shape of the stack, and the operations that keep it.
//!
//! The stack of a machine is well formed for a program when every frame
//! stands at a control point of its function and holds one slot for each
//! local variable, and every frame below the top waits at the terminator that
//! made the call above it.  This depends on the program counters and the
//! numbers of slots alone, which most operations leave as they are.
use vstd::prelude::*;
use crate::bir::{BirRecord, ControlPoint, ControlPointData, LocalVariable, Place, TargetPlace, TerminatorData};
use crate::db::Db;
use crate::model::{FrameModel, MachineModel, Permission, Slot, Value};
use crate::step::traversal::SlotAddress;

verus! {

impl FrameModel {
    /// The control point at which the frame stands.
    pub open spec fn point(self, db: &Db) -> Option<ControlPoint> {
        if self.pc.bir.valid(db) {
            self.pc.bir.record(db).data.tables.block_point(
                self.pc.basic_block,
                self.pc.statement as nat,
            )
        } else {
            None
        }
    }

    /// The frame stands at a control point of its function and holds one slot
    /// for each of the function's local variables.
    pub open spec fn wf(self, db: &Db) -> bool {
        &&& self.pc.bir.valid(db)
        &&& self.point(db) is Some
        &&& self.variables.len() == self.pc.bir.record(db).data.tables.local_variables@.len()
    }

    /// If the frame stands at a terminator that assigns the result of a call
    /// or of an await: the target of the assignment and the block that
    /// follows.
    pub open spec fn awaiting(self, db: &Db) -> Option<(TargetPlace, ControlPoint)> {
        match self.point(db) {
            Some(point) => match self.pc.bir.record(db).data.tables.control_points@[point.index as int] {
                ControlPointData::Terminator(TerminatorData::Assign(target, _, next)) => Some(
                    (target, next),
                ),
                _ => None,
            },
            None => None,
        }
    }
}

impl MachineModel {
    /// Every frame is well formed, and every frame below the top waits for
    /// the call above it.
    pub open spec fn wf(self, db: &Db) -> bool {
        forall|i: int|
            0 <= i < self.stack.len() ==> (#[trigger] self.stack[i]).wf(db) && (i + 1
                < self.stack.len() ==> self.stack[i].awaiting(db) is Some)
    }

    /// The two machines have the same number of frames, and corresponding
    /// frames have the same program counter and the same number of slots.
    pub open spec fn same_shape(self, other: MachineModel) -> bool {
        &&& self.stack.len() == other.stack.len()
        &&& forall|i: int|
            0 <= i < self.stack.len() ==> (#[trigger] self.stack[i]).pc == other.stack[i].pc
                && self.stack[i].variables.len() == other.stack[i].variables.len()
    }
}

/// Well-formedness depends on the shape of the stack alone.
pub proof fn lemma_same_shape_wf(a: MachineModel, b: MachineModel, db: &Db)
    requires
        a.wf(db),
        a.same_shape(b),
    ensures
        b.wf(db),
{
    assert forall|i: int| 0 <= i < b.stack.len() implies (#[trigger] b.stack[i]).wf(db) && (i + 1
        < b.stack.len() ==> b.stack[i].awaiting(db) is Some) by {
        assert(a.stack[i].wf(db));
        assert(a.stack[i].pc == b.stack[i].pc);
    }
}

/// Revoking the tenants of permissions changes permissions only.
pub proof fn lemma_revoke_tenants_keeps(m: MachineModel, permissions: Seq<Permission>, from: int)
    ensures
        m.revoke_tenants(permissions, from).stack == m.stack,
        m.revoke_tenants(permissions, from).objects == m.objects,
        m.revoke_tenants(permissions, from).permissions.len() == m.permissions.len(),
    decreases permissions.len() - from,
{
    if 0 <= from < permissions.len() {
        lemma_revoke_keeps(m, permissions[from]);
        lemma_revoke_tenants_keeps(m.revoke_tenant(permissions[from]), permissions, from + 1);
    }
}

/// Revoking the leased tenants of permissions changes permissions only.
pub proof fn lemma_revoke_leased_tenants_keeps(m: MachineModel, permissions: Seq<Permission>, from: int)
    ensures
        m.revoke_leased_tenants(permissions, from).stack == m.stack,
        m.revoke_leased_tenants(permissions, from).objects == m.objects,
        m.revoke_leased_tenants(permissions, from).permissions.len() == m.permissions.len(),
    decreases permissions.len() - from,
{
    if 0 <= from < permissions.len() {
        lemma_revoke_keeps(m, permissions[from]);
        lemma_revoke_leased_tenants_keeps(
            m.revoke_leased_tenant(permissions[from]),
            permissions,
            from + 1,
        );
    }
}

/// Canceling a chain keeps the length of the table.
pub proof fn lemma_cancel_chain_len(
    permissions: Seq<Option<crate::model::PermissionData>>,
    p: Permission,
    at: Option<crate::model::ProgramCounter>,
)
    ensures
        crate::step::revoke::cancel_chain(permissions, p, at).len() == permissions.len(),
    decreases permissions.len() - p.index,
{
    if p.index < permissions.len() {
        match permissions[p.index as int] {
            Some(data) => {
                let canceled = permissions.update(
                    p.index as int,
                    Some(crate::step::revoke::canceled_data(data, at)),
                );
                match data.tenant {
                    Some(t) => if p.index < t.index < permissions.len() {
                        lemma_cancel_chain_len(canceled, t, at);
                    },
                    None => {},
                }
            },
            None => {},
        }
    }
}

/// Revoking changes permissions only, and allocates none.
pub proof fn lemma_revoke_keeps(m: MachineModel, p: Permission)
    ensures
        m.revoke(p).stack == m.stack,
        m.revoke(p).objects == m.objects,
        m.revoke(p).permissions.len() == m.permissions.len(),
        m.revoke_tenant(p).stack == m.stack,
        m.revoke_tenant(p).objects == m.objects,
        m.revoke_tenant(p).permissions.len() == m.permissions.len(),
        m.revoke_leased_tenant(p).stack == m.stack,
        m.revoke_leased_tenant(p).objects == m.objects,
        m.revoke_leased_tenant(p).permissions.len() == m.permissions.len(),
{
    lemma_cancel_chain_len(m.detach(p).permissions, p, m.pc());
    match m.tenant(p) {
        Some(t) => {
            lemma_cancel_chain_len(m.detach(t).permissions, t, m.pc());
        },
        None => {},
    }
}

/// Resolving a place to an object leaves the stack as it is.
pub proof fn lemma_traverse_to_object_keeps(m: MachineModel, db: &Db, code: &BirRecord, place: Place)
    ensures
        m.traverse_to_object(db, code, place).0.stack == m.stack,
    decreases place.index,
{
    if place.index < code.data.tables.places@.len() {
        match code.data.tables.places@[place.index as int] {
            crate::bir::PlaceData::Dot(base, name) => {
                if base.index < place.index {
                    lemma_traverse_to_object_keeps(m, db, code, base);
                }
            },
            _ => {},
        }
    }
}

/// Resolving a place to a slot leaves the stack as it is.
pub proof fn lemma_traverse_to_place_keeps(m: MachineModel, db: &Db, code: &BirRecord, target: TargetPlace)
    ensures
        m.traverse_to_place(db, code, target).0.stack == m.stack,
{
    if target.index < code.data.tables.target_places@.len() {
        match code.data.tables.target_places@[target.index as int] {
            crate::bir::TargetPlaceData::Dot(base, name) => {
                lemma_traverse_to_object_keeps(m, db, code, base);
            },
            _ => {},
        }
    }
}

/// Replacing a slot keeps the shape of the stack.
pub proof fn lemma_set_slot_keeps_shape(m: MachineModel, address: SlotAddress, slot: Slot)
    ensures
        m.same_shape(m.set_slot(address, slot)),
        m.same_shape(m.write_slot(address, slot)),
        m.same_shape(m.take(Some(address))),
{
    match m.slot_at(address) {
        Some(occupant) => {
            lemma_revoke_keeps(m, occupant.permission);
        },
        None => {},
    }
}

/// Reading a place keeps the stack as it is.
pub proof fn lemma_read_place_keeps(m: MachineModel, db: &Db, code: &BirRecord, place: Place)
    ensures
        m.read_place(db, code, place).0.stack == m.stack,
        m.peek_place(db, code, place).0.stack == m.stack,
{
    lemma_traverse_to_object_keeps(m, db, code, place);
    let (m1, r) = m.traverse_to_object(db, code, place);
    match r {
        Ok(t) => {
            lemma_revoke_leased_tenants_keeps(m1, t.traversed, 0);
        },
        Err(_) => {},
    }
}

/// Giving, sharing and leasing keep the shape of the stack.
pub proof fn lemma_give_share_lease_keep_shape(
    m: MachineModel,
    db: &Db,
    code: &BirRecord,
    place: Place,
    clearing: bool,
)
    ensures
        m.same_shape(m.give_place(db, code, place, clearing).0),
        m.share_place(db, code, place).0.stack == m.stack,
        m.lease_place(db, code, place).0.stack == m.stack,
{
    lemma_traverse_to_object_keeps(m, db, code, place);
    let (m1, r) = m.traverse_to_object(db, code, place);
    match r {
        Ok(t) => {
            match t.origin {
                Some(address) => {
                    lemma_set_slot_keeps_shape(m1, address, None);
                },
                None => {},
            }
            lemma_revoke_leased_tenants_keeps(m1, t.traversed, 0);
            let m2 = m1.revoke_leased_tenants(t.traversed, 0);
            let (m3, tenant) = m2.new_permission(
                crate::model::PermissionData::spec_borrowed(
                    crate::model::PermissionKind::Shared,
                    t.value.permission,
                ),
            );
            lemma_revoke_keeps(m3, t.value.permission);
            let (m4, tenant4) = m1.new_permission(
                crate::model::PermissionData::spec_borrowed(
                    crate::model::PermissionKind::Leased,
                    t.value.permission,
                ),
            );
            lemma_revoke_keeps(m4, t.value.permission);
        },
        Err(_) => {},
    }
}

/// Giving several places keeps the shape of the stack.
pub proof fn lemma_give_places_keep_shape(
    m: MachineModel,
    db: &Db,
    code: &BirRecord,
    places: Seq<Place>,
    from: int,
    given: Seq<Slot>,
)
    ensures
        m.same_shape(m.give_places(db, code, places, from, given).0),
    decreases places.len() - from,
{
    if 0 <= from < places.len() {
        lemma_give_share_lease_keep_shape(m, db, code, places[from], false);
        let (m1, r) = m.give_place(db, code, places[from], false);
        match r {
            Ok(value) => {
                lemma_give_places_keep_shape(m1, db, code, places, from + 1, given.push(Some(value)));
            },
            Err(_) => {},
        }
    }
}

/// Assigning to a place keeps the shape of the stack.
pub proof fn lemma_assign_place_keeps_shape(
    m: MachineModel,
    db: &Db,
    code: &BirRecord,
    target: TargetPlace,
    value: Value,
)
    ensures
        m.same_shape(m.assign_place(db, code, target, value).0),
{
    lemma_traverse_to_place_keeps(m, db, code, target);
    let (m1, r) = m.traverse_to_place(db, code, target);
    match r {
        Ok(t) => {
            lemma_revoke_tenants_keeps(m1, t.traversed, 0);
            lemma_set_slot_keeps_shape(m1.revoke_tenants(t.traversed, 0), t.address, Some(value));
        },
        Err(_) => {},
    }
}

/// Clearing slots of the top frame keeps the shape of the stack.
pub proof fn lemma_clear_from_keeps_shape(m: MachineModel, from: int)
    ensures
        m.same_shape(m.clear_from(from)),
    decreases
        (match m.top_frame() {
            Some(frame) => frame.variables.len() - from,
            None => 0,
        }),
{
    match m.top_frame() {
        Some(frame) => if 0 <= from < frame.variables.len() {
            let local = LocalVariable { index: from as usize };
            lemma_set_slot_keeps_shape(m, SlotAddress::Local(local), None);
            let cleared = m.clear(local);
            if cleared.top_frame() is Some && cleared.top_frame().unwrap().variables.len()
                == frame.variables.len() {
                lemma_clear_from_keeps_shape(cleared, from + 1);
            }
        },
        None => {},
    }
}

/// Emptying the slots of an object changes that object alone.
pub proof fn lemma_empty_slots_keeps(m: MachineModel, o: crate::model::Object, from: int)
    ensures
        m.empty_slots(o, from).stack == m.stack,
        m.empty_slots(o, from).permissions == m.permissions,
        m.empty_slots(o, from).objects.len() == m.objects.len(),
        forall|x: crate::model::Object|
            (m.object(x) is Some <==> #[trigger] m.empty_slots(o, from).object(x) is Some),
    decreases
        (match m.object(o) {
            Some(data) => data.slots().len() - from,
            None => 0,
        }),
{
    match m.object(o) {
        Some(data) => if 0 <= from < data.slots().len() {
            let emptied = m.set_object_slot(o, from, None);
            if emptied.object(o) is Some && emptied.object(o).unwrap().slots().len()
                == data.slots().len() {
                lemma_empty_slots_keeps(emptied, o, from + 1);
                assert forall|x: crate::model::Object|
                    (m.object(x) is Some <==> #[trigger] m.empty_slots(o, from).object(x) is Some) by {
                    assert(m.object(x) is Some <==> emptied.object(x) is Some);
                }
            }
        },
        None => {},
    }
}

} // verus!
