//! The mathematical model of the machine's state.
//!
//! The state of a machine is a stack of frames, a heap of objects and a table
//! of permissions.  The heap and the permission table only ever grow; an entry
//! that the collector has reclaimed remains as an empty entry, so a handle is
//! never used twice.  The functions here read and update single entries; the
//! operations of the interpreter are defined from them.
use vstd::prelude::*;
use crate::bir::{Bir, ControlPoint, LocalVariable};
use crate::class::Class;
use crate::db::Db;
use crate::function::{Function, Intrinsic};

verus! {

/// Handle of an object on the heap.
#[derive(Clone, Copy, Debug, PartialEq, Eq, Structural, Hash)]
pub struct Object {
    pub index: usize,
}

/// Handle of a permission.
#[derive(Clone, Copy, Debug, PartialEq, Eq, Structural, Hash)]
pub struct Permission {
    pub index: usize,
}

/// An object together with the permission through which it is held.
#[derive(Clone, Copy, Debug, PartialEq, Eq, Structural, Hash)]
pub struct Value {
    pub object: Object,
    pub permission: Permission,
}

/// A place that holds a value or is uninitialized.
pub type Slot = Option<Value>;

#[derive(Clone, Copy, Debug, PartialEq, Eq, Structural, Hash)]
pub enum PermissionKind {
    /// Unique owner.
    My,
    /// Shared and immutable; may alias freely.
    Our,
    /// Exclusive borrow from a lessor.
    Leased,
    /// Shared borrow from a lessor.
    Shared,
}

/// Where execution stands within one function: in the block that starts at
/// `basic_block`, after `statement` statements of it.
#[derive(Clone, Copy, Debug, PartialEq, Eq, Structural, Hash)]
pub struct ProgramCounter {
    pub bir: Bir,
    pub basic_block: ControlPoint,
    pub statement: usize,
}

#[derive(Clone, Copy, Debug)]
pub struct PermissionData {
    pub kind: PermissionKind,
    /// The permission this one borrows from.
    pub lessor: Option<Permission>,
    /// The current sub-lease descended from this permission.
    pub tenant: Option<Permission>,
    /// Once true, any use faults.
    pub canceled: bool,
    /// Where execution stood when the permission was canceled.
    pub canceled_at: Option<ProgramCounter>,
}

/// What a thunk will run when it is awaited.
#[derive(Clone, Copy, Debug, PartialEq, Eq, Structural, Hash)]
pub enum ThunkCallee {
    Function(Function),
    Intrinsic(Intrinsic),
}

/// The model of an object on the heap.
pub enum ObjectModel {
    Instance { class: Class, fields: Seq<Slot> },
    Tuple { fields: Seq<Slot> },
    Class(Class),
    Function(Function),
    Intrinsic(Intrinsic),
    Thunk { callee: ThunkCallee, arguments: Seq<Slot> },
    Bool(bool),
    Uint(u64),
    Int(i64),
    /// A float, as the bits of its 64-bit representation.
    Float(u64),
    String(Seq<char>),
    Unit,
}

/// The model of a stack frame.
pub struct FrameModel {
    pub pc: ProgramCounter,
    pub variables: Seq<Slot>,
    pub in_flight_value: Slot,
}

/// The model of a machine.
pub struct MachineModel {
    pub stack: Seq<FrameModel>,
    pub objects: Seq<Option<ObjectModel>>,
    pub permissions: Seq<Option<PermissionData>>,
}

impl PermissionData {
    /// A fresh permission of a unique owner.
    pub open spec fn spec_my() -> PermissionData {
        PermissionData {
            kind: PermissionKind::My,
            lessor: None,
            tenant: None,
            canceled: false,
            canceled_at: None,
        }
    }

    /// A fresh shared-immutable permission.
    pub open spec fn spec_our() -> PermissionData {
        PermissionData {
            kind: PermissionKind::Our,
            lessor: None,
            tenant: None,
            canceled: false,
            canceled_at: None,
        }
    }

    /// A fresh borrow of the given kind from `lessor`.
    pub open spec fn spec_borrowed(kind: PermissionKind, lessor: Permission) -> PermissionData {
        PermissionData { kind, lessor: Some(lessor), tenant: None, canceled: false, canceled_at: None }
    }

    #[verifier::when_used_as_spec(spec_my)]
    pub fn my() -> (r: PermissionData)
        ensures
            r == Self::spec_my(),
    {
        PermissionData {
            kind: PermissionKind::My,
            lessor: None,
            tenant: None,
            canceled: false,
            canceled_at: None,
        }
    }

    #[verifier::when_used_as_spec(spec_our)]
    pub fn our() -> (r: PermissionData)
        ensures
            r == Self::spec_our(),
    {
        PermissionData {
            kind: PermissionKind::Our,
            lessor: None,
            tenant: None,
            canceled: false,
            canceled_at: None,
        }
    }

    #[verifier::when_used_as_spec(spec_borrowed)]
    pub fn borrowed(kind: PermissionKind, lessor: Permission) -> (r: PermissionData)
        ensures
            r == Self::spec_borrowed(kind, lessor),
    {
        PermissionData { kind, lessor: Some(lessor), tenant: None, canceled: false, canceled_at: None }
    }

    /// Whether the permission is held by one value alone: a unique owner or
    /// an exclusive borrow.
    pub open spec fn spec_exclusive(&self) -> bool {
        self.kind == PermissionKind::My || self.kind == PermissionKind::Leased
    }

    #[verifier::when_used_as_spec(spec_exclusive)]
    pub fn exclusive(&self) -> (r: bool)
        ensures
            r == self.spec_exclusive(),
    {
        self.kind == PermissionKind::My || self.kind == PermissionKind::Leased
    }
}

impl ObjectModel {
    /// The slots of values that the object holds: the fields of an instance
    /// or a tuple, the arguments of a thunk, and nothing otherwise.
    pub open spec fn slots(self) -> Seq<Slot> {
        match self {
            ObjectModel::Instance { fields, .. } => fields,
            ObjectModel::Tuple { fields } => fields,
            ObjectModel::Thunk { arguments, .. } => arguments,
            _ => Seq::empty(),
        }
    }

    /// The object with its slots replaced by `slots`.
    pub open spec fn with_slots(self, slots: Seq<Slot>) -> ObjectModel {
        match self {
            ObjectModel::Instance { class, .. } => ObjectModel::Instance { class, fields: slots },
            ObjectModel::Tuple { .. } => ObjectModel::Tuple { fields: slots },
            ObjectModel::Thunk { callee, .. } => ObjectModel::Thunk { callee, arguments: slots },
            _ => self,
        }
    }
}

impl ProgramCounter {
    /// The start of the block `block` in the same function.
    pub open spec fn spec_move_to_block(self, block: ControlPoint) -> ProgramCounter {
        ProgramCounter { bir: self.bir, basic_block: block, statement: 0 }
    }

    #[verifier::when_used_as_spec(spec_move_to_block)]
    pub fn move_to_block(self, block: ControlPoint) -> (r: ProgramCounter)
        ensures
            r == self.spec_move_to_block(block),
    {
        ProgramCounter { bir: self.bir, basic_block: block, statement: 0 }
    }
}

impl MachineModel {
    /// The machine with nothing on its stack and nothing allocated.
    pub open spec fn empty() -> MachineModel {
        MachineModel { stack: Seq::empty(), objects: Seq::empty(), permissions: Seq::empty() }
    }

    /// The object behind `o`, if `o` is allocated.
    pub open spec fn object(self, o: Object) -> Option<ObjectModel> {
        if o.index < self.objects.len() {
            self.objects[o.index as int]
        } else {
            None
        }
    }

    /// The permission behind `p`, if `p` is allocated.
    pub open spec fn permission(self, p: Permission) -> Option<PermissionData> {
        if p.index < self.permissions.len() {
            self.permissions[p.index as int]
        } else {
            None
        }
    }

    /// Whether uses of `p` fault: `p` is canceled or not allocated.
    pub open spec fn canceled(self, p: Permission) -> bool {
        match self.permission(p) {
            Some(data) => data.canceled,
            None => true,
        }
    }

    /// The current tenant of `p`.
    pub open spec fn tenant(self, p: Permission) -> Option<Permission> {
        match self.permission(p) {
            Some(data) => data.tenant,
            None => None,
        }
    }

    /// Slot `k` of the object behind `o`; uninitialized if there is no such
    /// slot.
    pub open spec fn object_slot(self, o: Object, k: int) -> Slot {
        match self.object(o) {
            Some(data) => if 0 <= k < data.slots().len() {
                data.slots()[k]
            } else {
                None
            },
            None => None,
        }
    }

    /// The frame on top of the stack.
    pub open spec fn top_frame(self) -> Option<FrameModel> {
        if self.stack.len() > 0 {
            Some(self.stack.last())
        } else {
            None
        }
    }

    /// The program counter of the top frame.
    pub open spec fn pc(self) -> Option<ProgramCounter> {
        match self.top_frame() {
            Some(frame) => Some(frame.pc),
            None => None,
        }
    }

    /// The slot of `local` in the top frame; uninitialized if there is no
    /// such variable.
    pub open spec fn local(self, local: LocalVariable) -> Slot {
        match self.top_frame() {
            Some(frame) => if local.index < frame.variables.len() {
                frame.variables[local.index as int]
            } else {
                None
            },
            None => None,
        }
    }

    /// Allocates `data` at the end of the heap.
    pub open spec fn new_object(self, data: ObjectModel) -> (MachineModel, Object) {
        (
            MachineModel { objects: self.objects.push(Some(data)), ..self },
            Object { index: self.objects.len() as usize },
        )
    }

    /// Allocates `data` at the end of the permission table.
    pub open spec fn new_permission(self, data: PermissionData) -> (MachineModel, Permission) {
        (
            MachineModel { permissions: self.permissions.push(Some(data)), ..self },
            Permission { index: self.permissions.len() as usize },
        )
    }

    /// Allocates `data` and a fresh permission `permission` for it.
    pub open spec fn new_value(self, data: ObjectModel, permission: PermissionData) -> (
        MachineModel,
        Value,
    ) {
        let (m1, object) = self.new_object(data);
        let (m2, permission) = m1.new_permission(permission);
        (m2, Value { object, permission })
    }

    /// Replaces the data of `p`, if `p` is allocated.
    pub open spec fn set_permission(self, p: Permission, data: PermissionData) -> MachineModel {
        if self.permission(p) is Some {
            MachineModel { permissions: self.permissions.update(p.index as int, Some(data)), ..self }
        } else {
            self
        }
    }

    /// Replaces slot `k` of the object behind `o`, if there is such a slot.
    pub open spec fn set_object_slot(self, o: Object, k: int, slot: Slot) -> MachineModel {
        match self.object(o) {
            Some(data) => if 0 <= k < data.slots().len() {
                MachineModel {
                    objects: self.objects.update(
                        o.index as int,
                        Some(data.with_slots(data.slots().update(k, slot))),
                    ),
                    ..self
                }
            } else {
                self
            },
            None => self,
        }
    }

    /// Replaces the slot of `local` in the top frame, if there is such a
    /// variable.
    pub open spec fn set_local(self, local: LocalVariable, slot: Slot) -> MachineModel {
        match self.top_frame() {
            Some(frame) => if local.index < frame.variables.len() {
                MachineModel {
                    stack: self.stack.update(
                        self.stack.len() - 1,
                        FrameModel { variables: frame.variables.update(local.index as int, slot), ..frame },
                    ),
                    ..self
                }
            } else {
                self
            },
            None => self,
        }
    }

    /// Replaces the program counter of the top frame, if there is a frame.
    pub open spec fn set_pc(self, pc: ProgramCounter) -> MachineModel {
        match self.top_frame() {
            Some(frame) => MachineModel {
                stack: self.stack.update(self.stack.len() - 1, FrameModel { pc, ..frame }),
                ..self
            },
            None => self,
        }
    }

    /// Replaces the in-flight value of the top frame, if there is a frame.
    pub open spec fn set_in_flight(self, slot: Slot) -> MachineModel {
        match self.top_frame() {
            Some(frame) => MachineModel {
                stack: self.stack.update(
                    self.stack.len() - 1,
                    FrameModel { in_flight_value: slot, ..frame },
                ),
                ..self
            },
            None => self,
        }
    }

    /// Reclaims what `live_objects` and `live_permissions` do not mark: an
    /// entry of the heap or of the permission table that is not marked
    /// becomes empty, and a permission that stays loses a tenant that goes.
    pub open spec fn sweep(self, live_objects: Seq<bool>, live_permissions: Seq<bool>) -> MachineModel {
        MachineModel {
            stack: self.stack,
            objects: Seq::new(
                self.objects.len(),
                |i: int|
                    if i < live_objects.len() && live_objects[i] {
                        self.objects[i]
                    } else {
                        None
                    },
            ),
            permissions: Seq::new(
                self.permissions.len(),
                |i: int|
                    if i < live_permissions.len() && live_permissions[i] {
                        match self.permissions[i] {
                            Some(data) => Some(
                                PermissionData {
                                    tenant: match data.tenant {
                                        Some(t) => if t.index < live_permissions.len()
                                            && live_permissions[t.index as int] {
                                            Some(t)
                                        } else {
                                            None
                                        },
                                        None => None,
                                    },
                                    ..data
                                },
                            ),
                            None => None,
                        }
                    } else {
                        None
                    },
            ),
        }
    }

    /// Pushes `frame`.
    pub open spec fn push_frame(self, frame: FrameModel) -> MachineModel {
        MachineModel { stack: self.stack.push(frame), ..self }
    }

    /// Removes the top frame, if there is one.
    pub open spec fn pop_frame(self) -> MachineModel {
        if self.stack.len() > 0 {
            MachineModel { stack: self.stack.drop_last(), ..self }
        } else {
            self
        }
    }
}

impl FrameModel {
    /// The frame in which a call of the function with code `bir` starts: the
    /// arguments stand in the first slots, every other slot is uninitialized,
    /// and execution stands at the start point.
    pub open spec fn for_call(db: &Db, bir: Bir, arguments: Seq<Slot>) -> FrameModel {
        let data = bir.record(db).data;
        FrameModel {
            pc: ProgramCounter { bir, basic_block: data.start_point, statement: 0 },
            variables: Seq::new(
                data.tables.local_variables@.len(),
                |i: int|
                    if i < arguments.len() {
                        arguments[i]
                    } else {
                        None
                    },
            ),
            in_flight_value: None,
        }
    }
}

} // verus!
