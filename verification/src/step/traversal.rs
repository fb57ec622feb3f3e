//! Traversal: resolving a place expression to the object it names or to the
//! slot it designates, accumulating the permissions met on the way.
//!
//! A traversal holds handles and addresses, not borrows; it describes the
//! machine as it was when the place was resolved and is meant to be used
//! within the statement that resolved it.
use vstd::prelude::*;
use crate::bir::{BirRecord, LocalVariable, Place, PlaceData, TargetPlace, TargetPlaceData};
use crate::class::Class;
use crate::db::Db;
use crate::fault::{Fault, FaultKind};
use crate::machine::{Machine, ObjectData};
use crate::model::{
    MachineModel, Object, ObjectModel, Permission, PermissionData, Slot, Value,
};
use crate::span::FileSpan;
use crate::word::Word;

verus! {

/// Where a slot lives: in the top frame or in an object.
#[derive(Clone, Copy, Debug, PartialEq, Eq, Structural, Hash)]
pub enum SlotAddress {
    Local(LocalVariable),
    Field(Object, usize),
}

/// The result of resolving a place to the object it names.
#[derive(Debug)]
pub struct ObjectTraversal {
    /// Permissions met along the path, root to leaf.  The last one is the
    /// permission of `value`.
    pub traversed: Vec<Permission>,
    /// The value found at the place.
    pub value: Value,
    /// The slot that holds the value; `None` for a value made on the spot.
    pub origin: Option<SlotAddress>,
}

/// The result of resolving a place to the slot it designates.
#[derive(Debug)]
pub struct PlaceTraversal {
    /// Permissions met along the path to the object that owns the slot.
    pub traversed: Vec<Permission>,
    pub address: SlotAddress,
}

pub struct ObjectTraversalModel {
    pub traversed: Seq<Permission>,
    pub value: Value,
    pub origin: Option<SlotAddress>,
}

pub struct PlaceTraversalModel {
    pub traversed: Seq<Permission>,
    pub address: SlotAddress,
}

impl View for ObjectTraversal {
    type V = ObjectTraversalModel;

    open spec fn view(&self) -> ObjectTraversalModel {
        ObjectTraversalModel { traversed: self.traversed@, value: self.value, origin: self.origin }
    }
}

impl View for PlaceTraversal {
    type V = PlaceTraversalModel;

    open spec fn view(&self) -> PlaceTraversalModel {
        PlaceTraversalModel { traversed: self.traversed@, address: self.address }
    }
}

/// The model of the outcome of resolving a place to an object.
pub open spec fn object_outcome(r: Result<ObjectTraversal, Fault>) -> Result<
    ObjectTraversalModel,
    Fault,
> {
    match r {
        Ok(t) => Ok(t@),
        Err(fault) => Err(fault),
    }
}

/// The model of the outcome of resolving a place to a slot.
pub open spec fn place_outcome(r: Result<PlaceTraversal, Fault>) -> Result<
    PlaceTraversalModel,
    Fault,
> {
    match r {
        Ok(t) => Ok(t@),
        Err(fault) => Err(fault),
    }
}

/// The least index `i >= from` with `words[i] == name`, or the length of
/// `words` if there is none.
pub open spec fn index_of_word(words: Seq<Word>, name: Word, from: int) -> int
    decreases words.len() - from,
{
    if from < 0 || from >= words.len() {
        words.len() as int
    } else if words[from] == name {
        from
    } else {
        index_of_word(words, name, from + 1)
    }
}

/// The position of the first field called `name` among the fields that
/// `class` declares.
pub open spec fn field_index(db: &Db, class: Class, name: Word) -> Option<usize> {
    if class.valid(db) {
        let k = index_of_word(class.data(db).fields@, name, 0);
        if k < class.data(db).fields@.len() {
            Some(k as usize)
        } else {
            None
        }
    } else {
        None
    }
}

/// The position of the first field called `name` among the fields that
/// `class` declares.
pub fn find_field(db: &Db, class: Class, name: Word) -> (r: Option<usize>)
    ensures
        r == field_index(db, class, name),
{
    if class.index >= db.classes.len() {
        return None;
    }
    let fields = &db.classes[class.index].fields;
    let mut i: usize = 0;
    while i < fields.len()
        invariant
            i <= fields@.len(),
            class.valid(db),
            fields@ == class.data(db).fields@,
            index_of_word(fields@, name, 0) == index_of_word(fields@, name, i as int),
        decreases fields@.len() - i,
    {
        if fields[i] == name {
            assert(index_of_word(fields@, name, i as int) == i);
            return Some(i);
        }
        i += 1;
    }
    None
}

impl MachineModel {
    /// The slot at `address`.
    pub open spec fn slot_at(self, address: SlotAddress) -> Slot {
        match address {
            SlotAddress::Local(local) => self.local(local),
            SlotAddress::Field(o, k) => self.object_slot(o, k as int),
        }
    }

    /// Replaces the slot at `address`.
    pub open spec fn set_slot(self, address: SlotAddress, slot: Slot) -> MachineModel {
        match address {
            SlotAddress::Local(local) => self.set_local(local, slot),
            SlotAddress::Field(o, k) => self.set_object_slot(o, k as int, slot),
        }
    }

    /// What a traversal finds in `slot`, reached through `traversed` and
    /// stored at `origin`: a fault if the slot is uninitialized, if its
    /// permission is canceled or if its object is gone, and otherwise the
    /// value with its permission added to the path.
    pub open spec fn found(
        self,
        slot: Slot,
        traversed: Seq<Permission>,
        origin: Option<SlotAddress>,
        span: FileSpan,
    ) -> Result<ObjectTraversalModel, Fault> {
        match slot {
            None => Err(Fault { kind: FaultKind::Uninitialized, span }),
            Some(value) => if self.canceled(value.permission) {
                Err(Fault { kind: FaultKind::UseOfCanceledPermission, span })
            } else if self.object(value.object) is None {
                Err(Fault { kind: FaultKind::Uninitialized, span })
            } else {
                Ok(
                    ObjectTraversalModel {
                        traversed: traversed.push(value.permission),
                        value,
                        origin,
                    },
                )
            },
        }
    }

    /// The address of the field `name` of the object behind `owner`.
    pub open spec fn field_address(self, db: &Db, owner: Object, name: Word, span: FileSpan) -> Result<
        SlotAddress,
        Fault,
    > {
        match self.object(owner) {
            Some(ObjectModel::Instance { class, fields }) => match field_index(db, class, name) {
                Some(k) => Ok(SlotAddress::Field(owner, k)),
                None => Err(Fault { kind: FaultKind::NoSuchField, span }),
            },
            Some(_) => Err(Fault { kind: FaultKind::TypeMismatch, span }),
            None => Err(Fault { kind: FaultKind::Uninitialized, span }),
        }
    }

    /// The value made on the spot for a place that names `data`: a fresh
    /// object with a fresh shared-immutable permission.
    pub open spec fn fresh_global(self, data: ObjectModel) -> (
        MachineModel,
        Result<ObjectTraversalModel, Fault>,
    ) {
        let (m, value) = self.new_value(data, PermissionData::spec_our());
        (m, Ok(ObjectTraversalModel { traversed: seq![value.permission], value, origin: None }))
    }

    /// Resolves `place` to the object it names.
    ///
    /// A variable reads its slot in the top frame.  A field reads the object
    /// that its owner names and then the field's slot.  A function, class or
    /// intrinsic yields a value made on the spot.
    pub open spec fn traverse_to_object(self, db: &Db, code: &BirRecord, place: Place) -> (
        MachineModel,
        Result<ObjectTraversalModel, Fault>,
    )
        decreases place.index,
    {
        let span = code.spec_place_span(place);
        if place.index >= code.data.tables.places@.len() {
            (self, Err(Fault { kind: FaultKind::CompilationError, span }))
        } else {
            match code.data.tables.places@[place.index as int] {
                PlaceData::LocalVariable(local) => (
                    self,
                    self.found(self.local(local), seq![], Some(SlotAddress::Local(local)), span),
                ),
                PlaceData::Function(f) => self.fresh_global(ObjectModel::Function(f)),
                PlaceData::Class(c) => self.fresh_global(ObjectModel::Class(c)),
                PlaceData::Intrinsic(i) => self.fresh_global(ObjectModel::Intrinsic(i)),
                PlaceData::Dot(base, name) => if base.index < place.index {
                    let (m, r) = self.traverse_to_object(db, code, base);
                    match r {
                        Err(fault) => (m, Err(fault)),
                        Ok(owner) => match m.field_address(db, owner.value.object, name, span) {
                            Err(fault) => (m, Err(fault)),
                            Ok(address) => (
                                m,
                                m.found(m.slot_at(address), owner.traversed, Some(address), span),
                            ),
                        },
                    }
                } else {
                    (self, Err(Fault { kind: FaultKind::CompilationError, span }))
                },
            }
        }
    }

    /// Whether every permission of `permissions` is allocated and held by one
    /// value alone.
    pub open spec fn all_exclusive(self, permissions: Seq<Permission>) -> bool {
        forall|i: int|
            0 <= i < permissions.len() ==> (match self.permission(#[trigger] permissions[i]) {
                Some(data) => data.spec_exclusive(),
                None => false,
            })
    }

    /// Resolves `target` to the slot it designates.
    ///
    /// A variable designates its slot in the top frame.  A field designates
    /// its slot in the object that its owner names; every permission on the
    /// path to that object must be held by one value alone.
    pub open spec fn traverse_to_place(self, db: &Db, code: &BirRecord, target: TargetPlace) -> (
        MachineModel,
        Result<PlaceTraversalModel, Fault>,
    ) {
        let span = code.spec_target_span(target);
        if target.index >= code.data.tables.target_places@.len() {
            (self, Err(Fault { kind: FaultKind::CompilationError, span }))
        } else {
            match code.data.tables.target_places@[target.index as int] {
                TargetPlaceData::LocalVariable(local) => (
                    self,
                    Ok(
                        PlaceTraversalModel {
                            traversed: seq![],
                            address: SlotAddress::Local(local),
                        },
                    ),
                ),
                TargetPlaceData::Dot(base, name) => {
                    let (m, r) = self.traverse_to_object(db, code, base);
                    match r {
                        Err(fault) => (m, Err(fault)),
                        Ok(owner) => match m.field_address(db, owner.value.object, name, span) {
                            Err(fault) => (m, Err(fault)),
                            Ok(address) => if m.all_exclusive(owner.traversed) {
                                (m, Ok(PlaceTraversalModel { traversed: owner.traversed, address }))
                            } else {
                                (m, Err(Fault { kind: FaultKind::InsufficientPermission, span }))
                            },
                        },
                    }
                },
            }
        }
    }
}

impl Machine {
    /// The slot at `address`.
    pub fn slot_at(&self, address: SlotAddress) -> (r: Slot)
        ensures
            r == self@.slot_at(address),
    {
        match address {
            SlotAddress::Local(local) => self.local(local),
            SlotAddress::Field(o, k) => self.object_slot(o, k),
        }
    }

    /// Replaces the slot at `address`.
    pub fn set_slot(&mut self, address: SlotAddress, slot: Slot)
        ensures
            final(self)@ == old(self)@.set_slot(address, slot),
    {
        match address {
            SlotAddress::Local(local) => self.set_local(local, slot),
            SlotAddress::Field(o, k) => self.set_object_slot(o, k, slot),
        }
    }

    /// Whether uses of `p` fault.
    pub fn canceled(&self, p: Permission) -> (r: bool)
        ensures
            r == self@.canceled(p),
    {
        match self.permission(p) {
            Some(data) => data.canceled,
            None => true,
        }
    }

    fn found(
        &self,
        slot: Slot,
        traversed: Vec<Permission>,
        origin: Option<SlotAddress>,
        span: FileSpan,
    ) -> (r: Result<ObjectTraversal, Fault>)
        ensures
            object_outcome(r) == self@.found(slot, traversed@, origin, span),
    {
        match slot {
            None => Err(Fault { kind: FaultKind::Uninitialized, span }),
            Some(value) => if self.canceled(value.permission) {
                Err(Fault { kind: FaultKind::UseOfCanceledPermission, span })
            } else if self.object(value.object).is_none() {
                Err(Fault { kind: FaultKind::Uninitialized, span })
            } else {
                let mut traversed = traversed;
                traversed.push(value.permission);
                Ok(ObjectTraversal { traversed, value, origin })
            },
        }
    }

    fn field_address(&self, db: &Db, owner: Object, name: Word, span: FileSpan) -> (r: Result<
        SlotAddress,
        Fault,
    >)
        ensures
            r == self@.field_address(db, owner, name, span),
    {
        match self.object(owner) {
            Some(ObjectData::Instance(instance)) => match find_field(db, instance.class, name) {
                Some(k) => Ok(SlotAddress::Field(owner, k)),
                None => Err(Fault { kind: FaultKind::NoSuchField, span }),
            },
            Some(_) => Err(Fault { kind: FaultKind::TypeMismatch, span }),
            None => Err(Fault { kind: FaultKind::Uninitialized, span }),
        }
    }

    fn fresh_global(&mut self, data: ObjectData) -> (r: Result<ObjectTraversal, Fault>)
        ensures
            (final(self)@, object_outcome(r)) == old(self)@.fresh_global(data@),
    {
        let value = self.new_value(data, PermissionData::our());
        let traversed = vec![value.permission];
        assert(traversed@ =~= seq![value.permission]);
        Ok(ObjectTraversal { traversed, value, origin: None })
    }

    /// Resolves `place` to the object it names.
    pub fn traverse_to_object(&mut self, db: &Db, code: &BirRecord, place: Place) -> (r: Result<
        ObjectTraversal,
        Fault,
    >)
        requires
            code.wf(db),
            place.index < code.data.tables.places@.len(),
        ensures
            (final(self)@, object_outcome(r)) == old(self)@.traverse_to_object(db, code, place),
        decreases place.index,
    {
        let span = code.place_span(place);
        match code.data.tables.places[place.index] {
            PlaceData::LocalVariable(local) => {
                let slot = self.local(local);
                let r = self.found(slot, Vec::new(), Some(SlotAddress::Local(local)), span);
                assert(Seq::<Permission>::empty() =~= seq![]);
                r
            },
            PlaceData::Function(f) => self.fresh_global(ObjectData::Function(f)),
            PlaceData::Class(c) => self.fresh_global(ObjectData::Class(c)),
            PlaceData::Intrinsic(i) => self.fresh_global(ObjectData::Intrinsic(i)),
            PlaceData::Dot(base, name) => {
                assert(code.data.tables.places@[place.index as int].wf(
                    place.index as int,
                    &code.data.tables,
                    db,
                ));
                let owner = self.traverse_to_object(db, code, base)?;
                let address = self.field_address(db, owner.value.object, name, span)?;
                let slot = self.slot_at(address);
                self.found(slot, owner.traversed, Some(address), span)
            },
        }
    }

    /// Whether every permission of `permissions` is allocated and held by one
    /// value alone.
    pub fn all_exclusive(&self, permissions: &Vec<Permission>) -> (r: bool)
        ensures
            r == self@.all_exclusive(permissions@),
    {
        let mut i: usize = 0;
        while i < permissions.len()
            invariant
                i <= permissions@.len(),
                forall|j: int|
                    0 <= j < i ==> (match self@.permission(#[trigger] permissions@[j]) {
                        Some(data) => data.spec_exclusive(),
                        None => false,
                    }),
            decreases permissions@.len() - i,
        {
            let exclusive = match self.permission(permissions[i]) {
                Some(data) => data.exclusive(),
                None => false,
            };
            if !exclusive {
                return false;
            }
            i += 1;
        }
        true
    }

    /// Resolves `target` to the slot it designates.
    pub fn traverse_to_place(&mut self, db: &Db, code: &BirRecord, target: TargetPlace) -> (r:
        Result<PlaceTraversal, Fault>)
        requires
            code.wf(db),
            target.index < code.data.tables.target_places@.len(),
        ensures
            (final(self)@, place_outcome(r)) == old(self)@.traverse_to_place(db, code, target),
    {
        let span = code.target_span(target);
        match code.data.tables.target_places[target.index] {
            TargetPlaceData::LocalVariable(local) => {
                let traversed: Vec<Permission> = Vec::new();
                assert(traversed@ =~= seq![]);
                Ok(PlaceTraversal { traversed, address: SlotAddress::Local(local) })
            },
            TargetPlaceData::Dot(base, name) => {
                assert(code.data.tables.target_places@[target.index as int].wf(
                    &code.data.tables,
                    db,
                ));
                let owner = self.traverse_to_object(db, code, base)?;
                let address = self.field_address(db, owner.value.object, name, span)?;
                if self.all_exclusive(&owner.traversed) {
                    Ok(PlaceTraversal { traversed: owner.traversed, address })
                } else {
                    Err(Fault { kind: FaultKind::InsufficientPermission, span })
                }
            },
        }
    }
}

} // verus!
