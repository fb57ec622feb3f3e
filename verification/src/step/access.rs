//! Reading and writing through a traversal.
use vstd::prelude::*;
use crate::bir::{BirRecord, LocalVariable, Place, TargetPlace};
use crate::db::Db;
use crate::fault::Fault;
use crate::machine::Machine;
use crate::model::{MachineModel, Object, Slot, Value};
use crate::step::traversal::{ObjectTraversal, ObjectTraversalModel, SlotAddress};

verus! {

impl MachineModel {
    /// Reads the object that `traversal` found.  Reading through a
    /// permission ends an exclusive borrow of it: for each permission on the
    /// path whose tenant is a lease, that tenant is canceled.
    pub open spec fn read(self, traversal: ObjectTraversalModel) -> (MachineModel, Object) {
        (self.revoke_leased_tenants(traversal.traversed, 0), traversal.value.object)
    }

    /// Resolves `place` and reads the object found there.
    pub open spec fn read_place(self, db: &Db, code: &BirRecord, place: Place) -> (
        MachineModel,
        Result<Object, Fault>,
    ) {
        let (m, r) = self.traverse_to_object(db, code, place);
        match r {
            Err(fault) => (m, Err(fault)),
            Ok(traversal) => {
                let (m, object) = m.read(traversal);
                (m, Ok(object))
            },
        }
    }

    /// Resolves `place` to the value found there, without any effect on the
    /// permissions met.
    pub open spec fn peek_place(self, db: &Db, code: &BirRecord, place: Place) -> (
        MachineModel,
        Option<Value>,
    ) {
        let (m, r) = self.traverse_to_object(db, code, place);
        match r {
            Err(_) => (m, None),
            Ok(traversal) => (m, Some(traversal.value)),
        }
    }

    /// Stores `slot` at `address`.  If the slot held a value through a
    /// permission that one value alone holds, the tenant of that permission
    /// is canceled: nothing can be borrowed from a value that is gone.
    pub open spec fn write_slot(self, address: SlotAddress, slot: Slot) -> MachineModel {
        let revoked = match self.slot_at(address) {
            Some(occupant) => match self.permission(occupant.permission) {
                Some(data) => if data.spec_exclusive() {
                    self.revoke_tenant(occupant.permission)
                } else {
                    self
                },
                None => self,
            },
            None => self,
        };
        revoked.set_slot(address, slot)
    }

    /// Assigns `value` to `target`: resolves the slot, cancels the tenants of
    /// the permissions on the path to it (not those permissions themselves),
    /// and stores the value.
    pub open spec fn assign_place(self, db: &Db, code: &BirRecord, target: TargetPlace, value: Value) -> (
        MachineModel,
        Result<(), Fault>,
    ) {
        let (m, r) = self.traverse_to_place(db, code, target);
        match r {
            Err(fault) => (m, Err(fault)),
            Ok(traversal) => (
                m.revoke_tenants(traversal.traversed, 0).write_slot(traversal.address, Some(value)),
                Ok(()),
            ),
        }
    }

    /// Uninitializes the slot of `local` in the top frame.
    pub open spec fn clear(self, local: LocalVariable) -> MachineModel {
        self.write_slot(SlotAddress::Local(local), None)
    }

    /// Uninitializes the slots `from..` of the top frame, in order.
    pub open spec fn clear_from(self, from: int) -> MachineModel
        decreases
            (match self.top_frame() {
                Some(frame) => frame.variables.len() - from,
                None => 0,
            }),
    {
        match self.top_frame() {
            Some(frame) => if 0 <= from < frame.variables.len() {
                let cleared = self.clear(LocalVariable { index: from as usize });
                if cleared.top_frame() is Some && cleared.top_frame().unwrap().variables.len()
                    == frame.variables.len() {
                    cleared.clear_from(from + 1)
                } else {
                    cleared
                }
            } else {
                self
            },
            None => self,
        }
    }

    /// Uninitializes every slot of the top frame.  Done before the frame is
    /// popped, so that cancellations that follow from it are attributed to the
    /// callee.
    pub open spec fn clear_frame(self) -> MachineModel {
        self.clear_from(0)
    }
}

impl Machine {
    /// Reads the object that `traversal` found.
    pub fn read(&mut self, traversal: &ObjectTraversal) -> (object: Object)
        ensures
            (final(self)@, object) == old(self)@.read(traversal@),
    {
        self.revoke_leased_tenants(&traversal.traversed);
        traversal.value.object
    }

    /// Resolves `place` and reads the object found there.
    pub fn read_place(&mut self, db: &Db, code: &BirRecord, place: Place) -> (r: Result<Object, Fault>)
        requires
            code.wf(db),
            place.index < code.data.tables.places@.len(),
        ensures
            (final(self)@, r) == old(self)@.read_place(db, code, place),
    {
        let traversal = self.traverse_to_object(db, code, place)?;
        Ok(self.read(&traversal))
    }

    /// Resolves `place` to the value found there, without any effect on the
    /// permissions met.
    pub fn peek_place(&mut self, db: &Db, code: &BirRecord, place: Place) -> (r: Option<Value>)
        requires
            code.wf(db),
            place.index < code.data.tables.places@.len(),
        ensures
            (final(self)@, r) == old(self)@.peek_place(db, code, place),
    {
        match self.traverse_to_object(db, code, place) {
            Ok(traversal) => Some(traversal.value),
            Err(_) => None,
        }
    }

    /// Stores `slot` at `address`, canceling what was borrowed from the value
    /// that the slot held.
    pub fn write_slot(&mut self, address: SlotAddress, slot: Slot)
        ensures
            final(self)@ == old(self)@.write_slot(address, slot),
    {
        match self.slot_at(address) {
            Some(occupant) => match self.permission(occupant.permission) {
                Some(data) => if data.exclusive() {
                    self.revoke_tenant(occupant.permission);
                },
                None => {},
            },
            None => {},
        }
        self.set_slot(address, slot);
    }

    /// Assigns `value` to `target`.
    pub fn assign_place(&mut self, db: &Db, code: &BirRecord, target: TargetPlace, value: Value) -> (r:
        Result<(), Fault>)
        requires
            code.wf(db),
            target.index < code.data.tables.target_places@.len(),
        ensures
            (final(self)@, r) == old(self)@.assign_place(db, code, target, value),
    {
        let traversal = self.traverse_to_place(db, code, target)?;
        self.revoke_tenants(&traversal.traversed);
        self.write_slot(traversal.address, Some(value));
        Ok(())
    }

    /// Uninitializes the slot of `local` in the top frame.
    pub fn clear(&mut self, local: LocalVariable)
        ensures
            final(self)@ == old(self)@.clear(local),
    {
        self.write_slot(SlotAddress::Local(local), None);
    }

    /// Uninitializes every slot of the top frame.
    pub fn clear_frame(&mut self)
        ensures
            final(self)@ == old(self)@.clear_frame(),
    {
        let n = match self.top_frame() {
            Some(frame) => frame.variables.len(),
            None => {
                return ;
            },
        };
        let mut i: usize = 0;
        let mut more = true;
        while more && i < n
            invariant
                more ==> self@.clear_from(i as int) == old(self)@.clear_frame(),
                more ==> self@.top_frame() is Some && self@.top_frame().unwrap().variables.len() == n,
                !more ==> self@ == old(self)@.clear_frame(),
                i <= n,
            decreases n - i,
        {
            self.clear(LocalVariable { index: i });
            match self.top_frame() {
                Some(frame) => if frame.variables.len() != n {
                    more = false;
                },
                None => {
                    more = false;
                },
            }
            i += 1;
        }
    }
}

} // verus!
