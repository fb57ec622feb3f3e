//! The machine: the mutable state that the interpreter advances.
//!
//! The machine is the sole mutator of its stack, heap and permission table.
//! Each method states what it does to the machine's model.
use vstd::prelude::*;
use crate::bir::{Bir, LocalVariable};
use crate::class::Class;
use crate::db::Db;
use crate::function::{Function, Intrinsic};
use crate::model::{
    FrameModel, MachineModel, Object, ObjectModel, Permission, PermissionData, ProgramCounter, Slot,
    ThunkCallee, Value,
};

verus! {

#[derive(Debug)]
pub struct Instance {
    pub class: Class,
    pub fields: Vec<Slot>,
}

#[derive(Debug)]
pub struct Tuple {
    pub fields: Vec<Slot>,
}

/// A suspended call with its captured arguments.
#[derive(Debug)]
pub struct Thunk {
    pub callee: ThunkCallee,
    pub arguments: Vec<Slot>,
}

/// An object on the heap.
#[derive(Debug)]
pub enum ObjectData {
    Instance(Instance),
    Tuple(Tuple),
    Class(Class),
    Function(Function),
    Intrinsic(Intrinsic),
    Thunk(Thunk),
    Bool(bool),
    Uint(u64),
    Int(i64),
    /// A float, as the bits of its 64-bit representation.
    Float(u64),
    String(String),
    Unit,
}

#[derive(Debug)]
pub struct Frame {
    pub pc: ProgramCounter,
    pub variables: Vec<Slot>,
    pub in_flight_value: Slot,
}

#[derive(Debug)]
pub struct Machine {
    stack: Vec<Frame>,
    objects: Vec<Option<ObjectData>>,
    permissions: Vec<Option<PermissionData>>,
}

impl View for ObjectData {
    type V = ObjectModel;

    open spec fn view(&self) -> ObjectModel {
        match *self {
            ObjectData::Instance(i) => ObjectModel::Instance { class: i.class, fields: i.fields@ },
            ObjectData::Tuple(t) => ObjectModel::Tuple { fields: t.fields@ },
            ObjectData::Class(c) => ObjectModel::Class(c),
            ObjectData::Function(f) => ObjectModel::Function(f),
            ObjectData::Intrinsic(i) => ObjectModel::Intrinsic(i),
            ObjectData::Thunk(t) => ObjectModel::Thunk { callee: t.callee, arguments: t.arguments@ },
            ObjectData::Bool(b) => ObjectModel::Bool(b),
            ObjectData::Uint(n) => ObjectModel::Uint(n),
            ObjectData::Int(n) => ObjectModel::Int(n),
            ObjectData::Float(bits) => ObjectModel::Float(bits),
            ObjectData::String(s) => ObjectModel::String(s@),
            ObjectData::Unit => ObjectModel::Unit,
        }
    }
}

impl View for Frame {
    type V = FrameModel;

    open spec fn view(&self) -> FrameModel {
        FrameModel {
            pc: self.pc,
            variables: self.variables@,
            in_flight_value: self.in_flight_value,
        }
    }
}

/// The model of an entry of the heap.
pub open spec fn entry_view(entry: Option<ObjectData>) -> Option<ObjectModel> {
    match entry {
        Some(data) => Some(data@),
        None => None,
    }
}

impl View for Machine {
    type V = MachineModel;

    closed spec fn view(&self) -> MachineModel {
        MachineModel {
            stack: Seq::new(self.stack@.len(), |i: int| self.stack@[i]@),
            objects: Seq::new(self.objects@.len(), |i: int| entry_view(self.objects@[i])),
            permissions: self.permissions@,
        }
    }
}

impl Frame {
    /// The frame in which a call of the function with code `bir` starts.
    pub fn for_call(db: &Db, bir: Bir, arguments: &Vec<Slot>) -> (frame: Frame)
        requires
            bir.valid(db),
        ensures
            frame@ == FrameModel::for_call(db, bir, arguments@),
    {
        let data = &db.birs[bir.index].data;
        let n = data.tables.local_variables.len();
        let mut variables: Vec<Slot> = Vec::new();
        let mut i: usize = 0;
        while i < n
            invariant
                i <= n,
                variables@.len() == i,
                forall|j: int|
                    0 <= j < i ==> variables@[j] == if j < arguments@.len() {
                        arguments@[j]
                    } else {
                        None::<Value>
                    },
            decreases n - i,
        {
            if i < arguments.len() {
                variables.push(arguments[i]);
            } else {
                variables.push(None);
            }
            i += 1;
        }
        let frame = Frame {
            pc: ProgramCounter { bir, basic_block: data.start_point, statement: 0 },
            variables,
            in_flight_value: None,
        };
        assert(frame@.variables =~= FrameModel::for_call(db, bir, arguments@).variables);
        frame
    }
}

impl Machine {
    /// The tables of a machine are no longer than a table can be.
    pub proof fn lemma_tables_fit(&self)
        ensures
            self@.objects.len() <= usize::MAX,
            self@.permissions.len() <= usize::MAX,
    {
        assert(self.objects@.len() == self.objects.len());
        assert(self.permissions@.len() == self.permissions.len());
    }

    /// A machine with nothing on its stack and nothing allocated.
    pub fn new() -> (machine: Machine)
        ensures
            machine@ == MachineModel::empty(),
    {
        let machine = Machine { stack: Vec::new(), objects: Vec::new(), permissions: Vec::new() };
        assert(machine@.stack =~= Seq::empty());
        assert(machine@.objects =~= Seq::empty());
        machine
    }

    /// Allocates `data` on the heap.
    pub fn new_object(&mut self, data: ObjectData) -> (object: Object)
        ensures
            (final(self)@, object) == old(self)@.new_object(data@),
    {
        let object = Object { index: self.objects.len() };
        self.objects.push(Some(data));
        assert(self@.objects =~= old(self)@.objects.push(Some(data@)));
        assert(self@.stack =~= old(self)@.stack);
        object
    }

    /// Allocates the permission `data`.
    pub fn new_permission(&mut self, data: PermissionData) -> (permission: Permission)
        ensures
            (final(self)@, permission) == old(self)@.new_permission(data),
    {
        let permission = Permission { index: self.permissions.len() };
        self.permissions.push(Some(data));
        assert(self@.objects =~= old(self)@.objects);
        assert(self@.stack =~= old(self)@.stack);
        permission
    }

    /// Allocates `data` and a fresh permission for it.
    pub fn new_value(&mut self, data: ObjectData, permission: PermissionData) -> (value: Value)
        ensures
            (final(self)@, value) == old(self)@.new_value(data@, permission),
    {
        let object = self.new_object(data);
        let permission = self.new_permission(permission);
        Value { object, permission }
    }

    /// The object behind `o`, if `o` is allocated.
    pub fn object(&self, o: Object) -> (r: Option<&ObjectData>)
        ensures
            match r {
                Some(data) => self@.object(o) == Some(data@),
                None => self@.object(o) is None,
            },
    {
        if o.index < self.objects.len() {
            self.objects[o.index].as_ref()
        } else {
            None
        }
    }

    /// The permission behind `p`, if `p` is allocated.
    pub fn permission(&self, p: Permission) -> (r: Option<PermissionData>)
        ensures
            r == self@.permission(p),
    {
        if p.index < self.permissions.len() {
            self.permissions[p.index]
        } else {
            None
        }
    }

    /// Number of entries of the heap, reclaimed ones included.
    pub fn object_count(&self) -> (n: usize)
        ensures
            n == self@.objects.len(),
    {
        self.objects.len()
    }

    /// Number of entries of the permission table, reclaimed ones included.
    pub fn permission_count(&self) -> (n: usize)
        ensures
            n == self@.permissions.len(),
    {
        self.permissions.len()
    }

    /// Number of frames on the stack.
    pub fn stack_len(&self) -> (n: usize)
        ensures
            n == self@.stack.len(),
    {
        self.stack.len()
    }

    /// Frame `i` of the stack, counted from the bottom.
    pub fn frame(&self, i: usize) -> (r: &Frame)
        requires
            i < self@.stack.len(),
        ensures
            r@ == self@.stack[i as int],
    {
        &self.stack[i]
    }

    /// Slot `k` of the object behind `o`; uninitialized if there is no such
    /// slot.
    pub fn object_slot(&self, o: Object, k: usize) -> (r: Slot)
        ensures
            r == self@.object_slot(o, k as int),
    {
        match self.object(o) {
            Some(ObjectData::Instance(i)) => if k < i.fields.len() {
                i.fields[k]
            } else {
                None
            },
            Some(ObjectData::Tuple(t)) => if k < t.fields.len() {
                t.fields[k]
            } else {
                None
            },
            Some(ObjectData::Thunk(t)) => if k < t.arguments.len() {
                t.arguments[k]
            } else {
                None
            },
            _ => None,
        }
    }

    /// Number of slots of the object behind `o`.
    pub fn slot_count(&self, o: Object) -> (n: usize)
        ensures
            n == match self@.object(o) {
                Some(data) => data.slots().len(),
                None => 0,
            },
    {
        match self.object(o) {
            Some(ObjectData::Instance(i)) => i.fields.len(),
            Some(ObjectData::Tuple(t)) => t.fields.len(),
            Some(ObjectData::Thunk(t)) => t.arguments.len(),
            _ => 0,
        }
    }

    /// Reclaims what `live_objects` and `live_permissions` do not mark.
    pub fn sweep(&mut self, live_objects: &Vec<bool>, live_permissions: &Vec<bool>)
        ensures
            final(self)@ == old(self)@.sweep(live_objects@, live_permissions@),
    {
        let mut i: usize = 0;
        while i < self.objects.len()
            invariant
                i <= self.objects@.len(),
                self.objects@.len() == old(self).objects@.len(),
                self.stack == old(self).stack,
                self.permissions == old(self).permissions,
                forall|j: int|
                    0 <= j < i ==> entry_view(#[trigger] self.objects@[j]) == if j < live_objects@.len()
                        && live_objects@[j] {
                        entry_view(old(self).objects@[j])
                    } else {
                        None
                    },
                forall|j: int| i <= j < self.objects@.len() ==> self.objects@[j] == old(self).objects@[j],
            decreases self.objects@.len() - i,
        {
            if !(i < live_objects.len() && live_objects[i]) {
                self.objects[i] = None;
            }
            i += 1;
        }
        let mut i: usize = 0;
        while i < self.permissions.len()
            invariant
                i <= self.permissions@.len(),
                self.permissions@.len() == old(self).permissions@.len(),
                self.stack == old(self).stack,
                forall|j: int|
                    0 <= j < self.objects@.len() ==> entry_view(#[trigger] self.objects@[j]) == if j
                        < live_objects@.len() && live_objects@[j] {
                        entry_view(old(self).objects@[j])
                    } else {
                        None
                    },
                self.objects@.len() == old(self).objects@.len(),
                forall|j: int|
                    0 <= j < i ==> #[trigger] self.permissions@[j] == old(self)@.sweep(
                        live_objects@,
                        live_permissions@,
                    ).permissions[j],
                forall|j: int|
                    i <= j < self.permissions@.len() ==> self.permissions@[j] == old(self).permissions@[j],
            decreases self.permissions@.len() - i,
        {
            if i < live_permissions.len() && live_permissions[i] {
                match self.permissions[i] {
                    Some(data) => {
                        let tenant = match data.tenant {
                            Some(t) => if t.index < live_permissions.len() && live_permissions[t.index] {
                                Some(t)
                            } else {
                                None
                            },
                            None => None,
                        };
                        self.permissions[i] = Some(PermissionData { tenant, ..data });
                    },
                    None => {},
                }
            } else {
                self.permissions[i] = None;
            }
            i += 1;
        }
        assert(self@.stack =~= old(self)@.stack);
        assert(self@.objects =~= old(self)@.sweep(live_objects@, live_permissions@).objects);
        assert(self@.permissions =~= old(self)@.sweep(live_objects@, live_permissions@).permissions);
    }

    /// Replaces the data of `p`, if `p` is allocated.
    pub fn set_permission(&mut self, p: Permission, data: PermissionData)
        ensures
            final(self)@ == old(self)@.set_permission(p, data),
    {
        if p.index < self.permissions.len() && self.permissions[p.index].is_some() {
            self.permissions[p.index] = Some(data);
            assert(self@.objects =~= old(self)@.objects);
            assert(self@.stack =~= old(self)@.stack);
        }
    }

    /// Replaces slot `k` of the object behind `o`, if there is such a slot.
    pub fn set_object_slot(&mut self, o: Object, k: usize, slot: Slot)
        ensures
            final(self)@ == old(self)@.set_object_slot(o, k as int, slot),
    {
        if o.index < self.objects.len() {
            match &mut self.objects[o.index] {
                Some(ObjectData::Instance(i)) => {
                    if k < i.fields.len() {
                        i.fields[k] = slot;
                    }
                },
                Some(ObjectData::Tuple(t)) => {
                    if k < t.fields.len() {
                        t.fields[k] = slot;
                    }
                },
                Some(ObjectData::Thunk(t)) => {
                    if k < t.arguments.len() {
                        t.arguments[k] = slot;
                    }
                },
                _ => {},
            }
            assert(self@.stack =~= old(self)@.stack);
            assert(self@.objects =~= old(self)@.set_object_slot(o, k as int, slot).objects);
        }
    }

    /// The frame on top of the stack.
    pub fn top_frame(&self) -> (r: Option<&Frame>)
        ensures
            match r {
                Some(frame) => self@.top_frame() == Some(frame@),
                None => self@.top_frame() is None,
            },
    {
        if self.stack.len() > 0 {
            Some(&self.stack[self.stack.len() - 1])
        } else {
            None
        }
    }

    /// The program counter of the top frame.
    pub fn pc(&self) -> (r: Option<ProgramCounter>)
        ensures
            r == self@.pc(),
    {
        match self.top_frame() {
            Some(frame) => Some(frame.pc),
            None => None,
        }
    }

    /// The slot of `local` in the top frame; uninitialized if there is no
    /// such variable.
    pub fn local(&self, local: LocalVariable) -> (r: Slot)
        ensures
            r == self@.local(local),
    {
        match self.top_frame() {
            Some(frame) => if local.index < frame.variables.len() {
                frame.variables[local.index]
            } else {
                None
            },
            None => None,
        }
    }

    /// Replaces the slot of `local` in the top frame, if there is such a
    /// variable.
    pub fn set_local(&mut self, local: LocalVariable, slot: Slot)
        ensures
            final(self)@ == old(self)@.set_local(local, slot),
    {
        let n = self.stack.len();
        if n > 0 {
            let frame = &mut self.stack[n - 1];
            if local.index < frame.variables.len() {
                frame.variables[local.index] = slot;
            }
            assert(self@.objects =~= old(self)@.objects);
            assert(self@.stack =~= old(self)@.set_local(local, slot).stack);
        }
    }

    /// Replaces the program counter of the top frame, if there is a frame.
    pub fn set_pc(&mut self, pc: ProgramCounter)
        ensures
            final(self)@ == old(self)@.set_pc(pc),
    {
        let n = self.stack.len();
        if n > 0 {
            self.stack[n - 1].pc = pc;
            assert(self@.objects =~= old(self)@.objects);
            assert(self@.stack =~= old(self)@.set_pc(pc).stack);
        }
    }

    /// Replaces the in-flight value of the top frame, if there is a frame.
    pub fn set_in_flight(&mut self, slot: Slot)
        ensures
            final(self)@ == old(self)@.set_in_flight(slot),
    {
        let n = self.stack.len();
        if n > 0 {
            self.stack[n - 1].in_flight_value = slot;
            assert(self@.objects =~= old(self)@.objects);
            assert(self@.stack =~= old(self)@.set_in_flight(slot).stack);
        }
    }

    /// Pushes `frame`.
    pub fn push_frame(&mut self, frame: Frame)
        ensures
            final(self)@ == old(self)@.push_frame(frame@),
    {
        self.stack.push(frame);
        assert(self@.objects =~= old(self)@.objects);
        assert(self@.stack =~= old(self)@.push_frame(frame@).stack);
    }

    /// Removes the top frame, if there is one.
    pub fn pop_frame(&mut self)
        ensures
            final(self)@ == old(self)@.pop_frame(),
    {
        if self.stack.len() > 0 {
            self.stack.pop();
            assert(self@.objects =~= old(self)@.objects);
            assert(self@.stack =~= old(self)@.pop_frame().stack);
        }
    }
}

} // verus!
