//! Giving: moving ownership of a value out of a place.
use vstd::prelude::*;
use crate::bir::{BirRecord, Place};
use crate::db::Db;
use crate::fault::{Fault, FaultKind};
use crate::machine::Machine;
use crate::model::{MachineModel, PermissionKind, Slot, Value};
use crate::span::FileSpan;
use crate::step::traversal::{ObjectTraversal, ObjectTraversalModel, SlotAddress};

verus! {

impl MachineModel {
    /// Uninitializes the slot at `origin`, if there is one.
    pub open spec fn take(self, origin: Option<SlotAddress>) -> MachineModel {
        match origin {
            Some(address) => self.set_slot(address, None),
            None => self,
        }
    }

    /// Gives the value that `traversal` found.
    ///
    /// A uniquely owned value is moved: the slot it came from becomes
    /// uninitialized and the result carries the same permission.  A
    /// shared-immutable value is duplicated: the result aliases the same
    /// permission and the source stays.  A borrowed value cannot be given,
    /// unless its frame is being cleared (`clearing`), in which case it is
    /// moved.
    pub open spec fn give(self, traversal: ObjectTraversalModel, clearing: bool, span: FileSpan) -> (
        MachineModel,
        Result<Value, Fault>,
    ) {
        match self.permission(traversal.value.permission) {
            Some(data) => match data.kind {
                PermissionKind::My => (self.take(traversal.origin), Ok(traversal.value)),
                PermissionKind::Our => (self, Ok(traversal.value)),
                _ => if clearing {
                    (self.take(traversal.origin), Ok(traversal.value))
                } else {
                    (self, Err(Fault { kind: FaultKind::InsufficientPermission, span }))
                },
            },
            None => (self, Err(Fault { kind: FaultKind::UseOfCanceledPermission, span })),
        }
    }

    /// Resolves `place` and gives the value found there.
    pub open spec fn give_place(self, db: &Db, code: &BirRecord, place: Place, clearing: bool) -> (
        MachineModel,
        Result<Value, Fault>,
    ) {
        let (m, r) = self.traverse_to_object(db, code, place);
        match r {
            Err(fault) => (m, Err(fault)),
            Ok(traversal) => m.give(traversal, clearing, code.spec_place_span(place)),
        }
    }

    /// Gives `places[from..]` in order and collects the values in slots
    /// after `given`; stops at the first fault.
    pub open spec fn give_places(
        self,
        db: &Db,
        code: &BirRecord,
        places: Seq<Place>,
        from: int,
        given: Seq<Slot>,
    ) -> (MachineModel, Result<Seq<Slot>, Fault>)
        decreases places.len() - from,
    {
        if 0 <= from < places.len() {
            let (m, r) = self.give_place(db, code, places[from], false);
            match r {
                Err(fault) => (m, Err(fault)),
                Ok(value) => m.give_places(db, code, places, from + 1, given.push(Some(value))),
            }
        } else {
            (self, Ok(given))
        }
    }
}

/// The model of the outcome of giving several places.
pub open spec fn values_outcome(r: Result<Vec<Slot>, Fault>) -> Result<Seq<Slot>, Fault> {
    match r {
        Ok(values) => Ok(values@),
        Err(fault) => Err(fault),
    }
}

impl Machine {
    /// Uninitializes the slot at `origin`, if there is one.
    pub fn take(&mut self, origin: Option<SlotAddress>)
        ensures
            final(self)@ == old(self)@.take(origin),
    {
        match origin {
            Some(address) => self.set_slot(address, None),
            None => {},
        }
    }

    /// Gives the value that `traversal` found.
    pub fn give(&mut self, traversal: &ObjectTraversal, clearing: bool, span: FileSpan) -> (r: Result<
        Value,
        Fault,
    >)
        ensures
            (final(self)@, r) == old(self)@.give(traversal@, clearing, span),
    {
        match self.permission(traversal.value.permission) {
            Some(data) => match data.kind {
                PermissionKind::My => {
                    self.take(traversal.origin);
                    Ok(traversal.value)
                },
                PermissionKind::Our => Ok(traversal.value),
                _ => if clearing {
                    self.take(traversal.origin);
                    Ok(traversal.value)
                } else {
                    Err(Fault { kind: FaultKind::InsufficientPermission, span })
                },
            },
            None => Err(Fault { kind: FaultKind::UseOfCanceledPermission, span }),
        }
    }

    /// Resolves `place` and gives the value found there.
    pub fn give_place(&mut self, db: &Db, code: &BirRecord, place: Place, clearing: bool) -> (r: Result<
        Value,
        Fault,
    >)
        requires
            code.wf(db),
            place.index < code.data.tables.places@.len(),
        ensures
            (final(self)@, r) == old(self)@.give_place(db, code, place, clearing),
    {
        let traversal = self.traverse_to_object(db, code, place)?;
        self.give(&traversal, clearing, code.place_span(place))
    }

    /// Gives `places` in order; stops at the first fault.
    pub fn give_places(&mut self, db: &Db, code: &BirRecord, places: &Vec<Place>) -> (r: Result<
        Vec<Slot>,
        Fault,
    >)
        requires
            code.wf(db),
            crate::bir::places_in_range(places@, &code.data.tables),
        ensures
            (final(self)@, values_outcome(r)) == old(self)@.give_places(db, code, places@, 0, seq![]),
    {
        let mut given: Vec<Slot> = Vec::new();
        let mut i: usize = 0;
        assert(given@ =~= seq![]);
        while i < places.len()
            invariant
                i <= places@.len(),
                code.wf(db),
                crate::bir::places_in_range(places@, &code.data.tables),
                self@.give_places(db, code, places@, i as int, given@) == old(self)@.give_places(
                    db,
                    code,
                    places@,
                    0,
                    seq![],
                ),
            decreases places@.len() - i,
        {
            match self.give_place(db, code, places[i], false) {
                Ok(value) => {
                    given.push(Some(value));
                },
                Err(fault) => {
                    return Err(fault);
                },
            }
            i += 1;
        }
        Ok(given)
    }
}

} // verus!
