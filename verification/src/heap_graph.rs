//! The heap graph: a snapshot of the machine for the debugger.
//!
//! A snapshot is a deep copy of the call stack, of the objects reachable from
//! it and of the permissions reachable from it.  It refers to nothing in the
//! machine: every object and permission is renumbered, by its rank among
//! those captured, into tables of the snapshot's own.  So a snapshot outlives
//! whatever the machine does next.
pub mod capture;
pub mod complete;
pub mod faithful;
pub mod graphviz;
pub mod paired;

use vstd::prelude::*;
use crate::bir::LocalVariable;
use crate::class::Class;
use crate::db::Db;
use crate::function::{Function, Intrinsic};
use crate::machine::ObjectData;
use crate::model::{
    MachineModel, Object, ObjectModel, Permission, PermissionData, PermissionKind, Slot, ThunkCallee,
    Value,
};
use crate::span::FileSpan;
use crate::text::{
    debug_quote, debug_quoted, decimal, decimal_text, hexadecimal, hexadecimal_text, signed_decimal,
    signed_decimal_text,
};
use crate::word::Word;

verus! {

/// Handle of an object node of a snapshot.
#[derive(Clone, Copy, Debug, PartialEq, Eq, Structural, Hash)]
pub struct ObjectNode {
    pub index: usize,
}

/// Handle of a data node of a snapshot.
#[derive(Clone, Copy, Debug, PartialEq, Eq, Structural, Hash)]
pub struct DataNode {
    pub index: usize,
}

/// Handle of a permission node of a snapshot.
#[derive(Clone, Copy, Debug, PartialEq, Eq, Structural, Hash)]
pub struct PermissionNode {
    pub index: usize,
}

/// What a value edge points to.
#[derive(Clone, Copy, Debug, PartialEq, Eq, Structural, Hash)]
pub enum ValueEdgeTarget {
    Object(ObjectNode),
    Class(Class),
    Function(Function),
    Data(DataNode),
}

/// A captured value: the permission it is held through and what it is.
#[derive(Clone, Copy, Debug, PartialEq, Eq, Structural, Hash)]
pub struct ValueEdge {
    pub permission: PermissionNode,
    pub target: ValueEdgeTarget,
}

#[derive(Clone, Copy, Debug, PartialEq, Eq, Structural, Hash)]
pub enum PermissionNodeLabel {
    My,
    Our,
    Leased,
    Shared,
    Expired,
}

#[derive(Clone, Copy, Debug)]
pub struct PermissionNodeData {
    /// The permission of the machine that was captured.
    pub source: Permission,
    pub label: PermissionNodeLabel,
    pub tenant: Option<PermissionNode>,
    pub lessor: Option<PermissionNode>,
}

/// What kind of object an object node stands for.
#[derive(Clone, Copy, Debug, PartialEq, Eq, Structural, Hash)]
pub enum ObjectNodeKind {
    Instance(Class),
    Tuple,
    Thunk(ThunkCallee),
}

#[derive(Debug)]
pub struct ObjectNodeData {
    /// The object of the machine that was captured.
    pub object: Object,
    pub kind: ObjectNodeKind,
    pub fields: Vec<Option<ValueEdge>>,
}

#[derive(Debug)]
pub struct DataNodeData {
    /// The object of the machine that was captured.
    pub object: Object,
    /// The text that shows the data.
    pub debug: String,
}

#[derive(Clone, Copy, Debug)]
pub struct LocalVariableEdge {
    pub id: LocalVariable,
    /// The name the user gave the variable; `None` for a temporary.
    pub name: Option<Word>,
    /// The captured value; `None` where the slot was uninitialized.
    pub value: Option<ValueEdge>,
}

#[derive(Debug)]
pub struct StackFrameNodeData {
    /// Where the frame stood in the source.
    pub span: FileSpan,
    /// Name of the function that the frame runs.
    pub function_name: Word,
    pub variables: Vec<LocalVariableEdge>,
    pub in_flight_value: Option<ValueEdge>,
}

#[derive(Debug)]
pub struct HeapGraph {
    /// The frames, bottom first.
    pub stack: Vec<StackFrameNodeData>,
    pub objects: Vec<ObjectNodeData>,
    pub datas: Vec<DataNodeData>,
    pub permissions: Vec<PermissionNodeData>,
}

pub struct ObjectNodeModel {
    pub object: Object,
    pub kind: ObjectNodeKind,
    pub fields: Seq<Option<ValueEdge>>,
}

pub struct DataNodeModel {
    pub object: Object,
    pub debug: Seq<char>,
}

pub struct StackFrameNodeModel {
    pub span: FileSpan,
    pub function_name: Word,
    pub variables: Seq<LocalVariableEdge>,
    pub in_flight_value: Option<ValueEdge>,
}

pub struct HeapGraphModel {
    pub stack: Seq<StackFrameNodeModel>,
    pub objects: Seq<ObjectNodeModel>,
    pub datas: Seq<DataNodeModel>,
    pub permissions: Seq<PermissionNodeData>,
}

impl View for ObjectNodeData {
    type V = ObjectNodeModel;

    open spec fn view(&self) -> ObjectNodeModel {
        ObjectNodeModel { object: self.object, kind: self.kind, fields: self.fields@ }
    }
}

impl View for DataNodeData {
    type V = DataNodeModel;

    open spec fn view(&self) -> DataNodeModel {
        DataNodeModel { object: self.object, debug: self.debug@ }
    }
}

impl View for StackFrameNodeData {
    type V = StackFrameNodeModel;

    open spec fn view(&self) -> StackFrameNodeModel {
        StackFrameNodeModel {
            span: self.span,
            function_name: self.function_name,
            variables: self.variables@,
            in_flight_value: self.in_flight_value,
        }
    }
}

impl View for HeapGraph {
    type V = HeapGraphModel;

    open spec fn view(&self) -> HeapGraphModel {
        HeapGraphModel {
            stack: Seq::new(self.stack@.len(), |i: int| self.stack@[i]@),
            objects: Seq::new(self.objects@.len(), |i: int| self.objects@[i]@),
            datas: Seq::new(self.datas@.len(), |i: int| self.datas@[i]@),
            permissions: self.permissions@,
        }
    }
}

/// Which entries of the machine a snapshot captures, and as what.
pub struct CaptureMarks {
    /// The objects captured as object nodes.
    pub objects: Seq<bool>,
    /// The objects captured as data nodes.
    pub datas: Seq<bool>,
    /// The objects that edges may point to.
    pub live: Seq<bool>,
    /// The permissions captured.
    pub permissions: Seq<bool>,
}

/// Number of marks set among `marks[..i]`.
pub open spec fn rank(marks: Seq<bool>, i: int) -> nat
    decreases i,
{
    if i <= 0 {
        0
    } else {
        rank(marks, i - 1) + if i - 1 < marks.len() && marks[i - 1] {
            1nat
        } else {
            0nat
        }
    }
}

/// Whether a snapshot captures `data` as an object node: it is an instance of
/// a class of the program, a tuple or a thunk.
pub open spec fn is_node(db: &Db, data: Option<ObjectModel>) -> bool {
    match data {
        Some(ObjectModel::Instance { class, .. }) => class.valid(db),
        Some(ObjectModel::Tuple { .. }) => true,
        Some(ObjectModel::Thunk { .. }) => true,
        _ => false,
    }
}

/// Whether a snapshot captures `data` as a data node: it is a primitive or an
/// intrinsic.
pub open spec fn is_data(data: Option<ObjectModel>) -> bool {
    match data {
        Some(ObjectModel::Bool(_)) => true,
        Some(ObjectModel::Uint(_)) => true,
        Some(ObjectModel::Int(_)) => true,
        Some(ObjectModel::Float(_)) => true,
        Some(ObjectModel::String(_)) => true,
        Some(ObjectModel::Unit) => true,
        Some(ObjectModel::Intrinsic(_)) => true,
        _ => false,
    }
}

/// The kind of the object node that captures `data`.
pub open spec fn node_kind(data: ObjectModel) -> ObjectNodeKind {
    match data {
        ObjectModel::Instance { class, .. } => ObjectNodeKind::Instance(class),
        ObjectModel::Thunk { callee, .. } => ObjectNodeKind::Thunk(callee),
        _ => ObjectNodeKind::Tuple,
    }
}

/// The text that shows `data`.  A float is shown by the bits of its
/// representation.
pub open spec fn data_text(data: ObjectModel) -> Seq<char> {
    match data {
        ObjectModel::Bool(b) => if b {
            "true"@
        } else {
            "false"@
        },
        ObjectModel::Uint(n) => decimal(n as nat),
        ObjectModel::Int(n) => signed_decimal(n as int),
        ObjectModel::Float(bits) => "float("@ + hexadecimal(bits as nat) + ")"@,
        ObjectModel::String(s) => debug_quoted(s),
        ObjectModel::Unit => "()"@,
        ObjectModel::Intrinsic(Intrinsic::Print) => "print"@,
        _ => Seq::empty(),
    }
}

/// The label of the node that captures `data`.
pub open spec fn label_of(data: PermissionData) -> PermissionNodeLabel {
    if data.canceled {
        PermissionNodeLabel::Expired
    } else {
        match data.kind {
            PermissionKind::My => PermissionNodeLabel::My,
            PermissionKind::Our => PermissionNodeLabel::Our,
            PermissionKind::Leased => PermissionNodeLabel::Leased,
            PermissionKind::Shared => PermissionNodeLabel::Shared,
        }
    }
}

/// The roots that the value in flight adds to those of the machine.
pub open spec fn in_flight_roots(in_flight: Option<Value>) -> Seq<Value> {
    match in_flight {
        Some(value) => seq![value],
        None => seq![],
    }
}

impl MachineModel {
    /// What a snapshot captures: the objects and permissions that are
    /// allocated and reachable from the stack, the values in flight and
    /// `in_flight`.
    pub open spec fn capture_marks(self, db: &Db, in_flight: Option<Value>) -> CaptureMarks {
        let roots = in_flight_roots(in_flight);
        let live_objects = self.live_objects(roots);
        let live_permissions = self.live_permissions(roots);
        CaptureMarks {
            objects: Seq::new(
                self.objects.len(),
                |i: int| live_objects[i] && is_node(db, self.objects[i]),
            ),
            datas: Seq::new(self.objects.len(), |i: int| live_objects[i] && is_data(self.objects[i])),
            live: live_objects,
            permissions: Seq::new(
                self.permissions.len(),
                |i: int| live_permissions[i] && self.permissions[i] is Some,
            ),
        }
    }

    /// The node that captures the permission `p`, if it is captured.
    pub open spec fn permission_node_of(self, marks: CaptureMarks, p: Permission) -> Option<
        PermissionNode,
    > {
        if p.index < marks.permissions.len() && marks.permissions[p.index as int] {
            Some(PermissionNode { index: rank(marks.permissions, p.index as int) as usize })
        } else {
            None
        }
    }

    /// What an edge to the object `o` points to, if `o` is captured.
    pub open spec fn target_of(self, db: &Db, marks: CaptureMarks, o: Object) -> Option<ValueEdgeTarget> {
        if o.index < marks.live.len() && marks.live[o.index as int] {
            match self.object(o) {
                Some(ObjectModel::Class(c)) => if c.valid(db) {
                    Some(ValueEdgeTarget::Class(c))
                } else {
                    None
                },
                Some(ObjectModel::Function(f)) => if f.valid(db) {
                    Some(ValueEdgeTarget::Function(f))
                } else {
                    None
                },
                _ => if marks.objects[o.index as int] {
                    Some(
                        ValueEdgeTarget::Object(
                            ObjectNode { index: rank(marks.objects, o.index as int) as usize },
                        ),
                    )
                } else if marks.datas[o.index as int] {
                    Some(
                        ValueEdgeTarget::Data(
                            DataNode { index: rank(marks.datas, o.index as int) as usize },
                        ),
                    )
                } else {
                    None
                },
            }
        } else {
            None
        }
    }

    /// The edge that captures what `slot` holds; nothing for an uninitialized
    /// slot or for a value whose object or permission is not captured.
    pub open spec fn edge_of(self, db: &Db, marks: CaptureMarks, slot: Slot) -> Option<ValueEdge> {
        match slot {
            Some(value) => match (
                self.permission_node_of(marks, value.permission),
                self.target_of(db, marks, value.object),
            ) {
                (Some(permission), Some(target)) => Some(ValueEdge { permission, target }),
                _ => None,
            },
            None => None,
        }
    }

    /// The node that captures the permission at index `i`.
    pub open spec fn permission_node(self, marks: CaptureMarks, i: int) -> PermissionNodeData {
        let data = self.permissions[i].unwrap();
        PermissionNodeData {
            source: Permission { index: i as usize },
            label: label_of(data),
            tenant: match data.tenant {
                Some(t) => self.permission_node_of(marks, t),
                None => None,
            },
            lessor: match data.lessor {
                Some(l) => self.permission_node_of(marks, l),
                None => None,
            },
        }
    }

    /// The nodes that capture the permissions below `upto`, in order.
    pub open spec fn permission_nodes(self, marks: CaptureMarks, upto: int) -> Seq<PermissionNodeData>
        decreases upto,
    {
        if upto <= 0 {
            seq![]
        } else if upto - 1 < marks.permissions.len() && marks.permissions[upto - 1] {
            self.permission_nodes(marks, upto - 1).push(self.permission_node(marks, upto - 1))
        } else {
            self.permission_nodes(marks, upto - 1)
        }
    }

    /// The edges that capture `slots`.
    pub open spec fn edges_of(self, db: &Db, marks: CaptureMarks, slots: Seq<Slot>) -> Seq<
        Option<ValueEdge>,
    > {
        Seq::new(slots.len(), |k: int| self.edge_of(db, marks, slots[k]))
    }

    /// The node that captures the object at index `i`.
    pub open spec fn object_node(self, db: &Db, marks: CaptureMarks, i: int) -> ObjectNodeModel {
        let data = self.objects[i].unwrap();
        ObjectNodeModel {
            object: Object { index: i as usize },
            kind: node_kind(data),
            fields: self.edges_of(db, marks, data.slots()),
        }
    }

    /// The nodes that capture the objects below `upto`, in order.
    pub open spec fn object_nodes(self, db: &Db, marks: CaptureMarks, upto: int) -> Seq<ObjectNodeModel>
        decreases upto,
    {
        if upto <= 0 {
            seq![]
        } else if upto - 1 < marks.objects.len() && marks.objects[upto - 1] {
            self.object_nodes(db, marks, upto - 1).push(self.object_node(db, marks, upto - 1))
        } else {
            self.object_nodes(db, marks, upto - 1)
        }
    }

    /// The node that captures the data at index `i`.
    pub open spec fn data_node(self, i: int) -> DataNodeModel {
        DataNodeModel { object: Object { index: i as usize }, debug: data_text(self.objects[i].unwrap()) }
    }

    /// The nodes that capture the data below `upto`, in order.
    pub open spec fn data_nodes(self, marks: CaptureMarks, upto: int) -> Seq<DataNodeModel>
        decreases upto,
    {
        if upto <= 0 {
            seq![]
        } else if upto - 1 < marks.datas.len() && marks.datas[upto - 1] {
            self.data_nodes(marks, upto - 1).push(self.data_node(upto - 1))
        } else {
            self.data_nodes(marks, upto - 1)
        }
    }

    /// The node that captures frame `f`.  The top frame shows `in_flight`, if
    /// there is one, as its value in flight.
    pub open spec fn stack_node(self, db: &Db, marks: CaptureMarks, f: int, in_flight: Option<Value>) -> StackFrameNodeModel {
        let frame = self.stack[f];
        let code = frame.pc.bir.record(db);
        StackFrameNodeModel {
            span: code.spec_point_span(frame.point(db).unwrap()),
            function_name: code.function_name,
            variables: Seq::new(
                frame.variables.len(),
                |i: int|
                    LocalVariableEdge {
                        id: LocalVariable { index: i as usize },
                        name: code.data.tables.local_variables@[i].name,
                        value: self.edge_of(db, marks, frame.variables[i]),
                    },
            ),
            in_flight_value: self.edge_of(
                db,
                marks,
                if f == self.stack.len() - 1 && in_flight is Some {
                    in_flight
                } else {
                    frame.in_flight_value
                },
            ),
        }
    }

    /// The snapshot of the machine, with `in_flight` as the value that the
    /// top frame has in flight.
    pub open spec fn snapshot(self, db: &Db, in_flight: Option<Value>) -> HeapGraphModel {
        let marks = self.capture_marks(db, in_flight);
        HeapGraphModel {
            stack: Seq::new(self.stack.len(), |f: int| self.stack_node(db, marks, f, in_flight)),
            objects: self.object_nodes(db, marks, self.objects.len() as int),
            datas: self.data_nodes(marks, self.objects.len() as int),
            permissions: self.permission_nodes(marks, self.permissions.len() as int),
        }
    }
}

/// The text that shows `data`.
pub fn data_debug(data: &ObjectData) -> (r: String)
    ensures
        r@ == data_text(data@),
{
    match data {
        ObjectData::Bool(b) => if *b {
            String::from_str("true")
        } else {
            String::from_str("false")
        },
        ObjectData::Uint(n) => decimal_text(*n),
        ObjectData::Int(n) => signed_decimal_text(*n),
        ObjectData::Float(bits) => {
            let mut out = String::from_str("float(");
            out.append(hexadecimal_text(*bits).as_str());
            out.append(")");
            out
        },
        ObjectData::String(s) => debug_quote(s.as_str()),
        ObjectData::Unit => String::from_str("()"),
        ObjectData::Intrinsic(Intrinsic::Print) => String::from_str("print"),
        _ => String::new(),
    }
}

/// The label of the node that captures `data`.
pub fn label(data: &PermissionData) -> (r: PermissionNodeLabel)
    ensures
        r == label_of(*data),
{
    if data.canceled {
        PermissionNodeLabel::Expired
    } else {
        match data.kind {
            PermissionKind::My => PermissionNodeLabel::My,
            PermissionKind::Our => PermissionNodeLabel::Our,
            PermissionKind::Leased => PermissionNodeLabel::Leased,
            PermissionKind::Shared => PermissionNodeLabel::Shared,
        }
    }
}

impl PermissionNodeLabel {
    /// The text of the label.
    pub open spec fn text(self) -> Seq<char> {
        match self {
            PermissionNodeLabel::My => "my"@,
            PermissionNodeLabel::Our => "our"@,
            PermissionNodeLabel::Leased => "leased"@,
            PermissionNodeLabel::Shared => "shared"@,
            PermissionNodeLabel::Expired => "expired"@,
        }
    }

    /// The text of the label.
    pub fn as_str(self) -> (r: &'static str)
        ensures
            r@ == self.text(),
    {
        match self {
            PermissionNodeLabel::My => "my",
            PermissionNodeLabel::Our => "our",
            PermissionNodeLabel::Leased => "leased",
            PermissionNodeLabel::Shared => "shared",
            PermissionNodeLabel::Expired => "expired",
        }
    }
}

} // verus!
