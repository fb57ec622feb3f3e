//! Capturing a snapshot from a machine.
use vstd::prelude::*;
use crate::bir::LocalVariable;
use crate::db::Db;
use crate::heap_graph::{
    data_debug, in_flight_roots, is_data, is_node, label, rank, CaptureMarks, DataNode,
    DataNodeData, HeapGraph, LocalVariableEdge, ObjectNode, ObjectNodeData, ObjectNodeKind,
    PermissionNode, PermissionNodeData, StackFrameNodeData, ValueEdge, ValueEdgeTarget,
};
use crate::machine::{Machine, ObjectData};
use crate::model::{Object, Permission, Slot, Value};

verus! {

/// Which entries of the machine a snapshot captures, with the rank of each
/// entry among those captured.
struct Capture {
    objects: Vec<bool>,
    datas: Vec<bool>,
    live: Vec<bool>,
    permissions: Vec<bool>,
    object_ranks: Vec<usize>,
    data_ranks: Vec<usize>,
    permission_ranks: Vec<usize>,
}

impl View for Capture {
    type V = CaptureMarks;

    closed spec fn view(&self) -> CaptureMarks {
        CaptureMarks {
            objects: self.objects@,
            datas: self.datas@,
            live: self.live@,
            permissions: self.permissions@,
        }
    }
}

/// `ranks[i]` is the rank of entry `i` among the marked entries.
spec fn ranks_of(ranks: Seq<usize>, marks: Seq<bool>) -> bool {
    &&& ranks.len() == marks.len()
    &&& forall|i: int| 0 <= i < ranks.len() ==> #[trigger] ranks[i] == rank(marks, i)
}

impl Capture {
    spec fn wf(&self) -> bool {
        &&& self.datas@.len() == self.objects@.len()
        &&& self.live@.len() == self.objects@.len()
        &&& ranks_of(self.object_ranks@, self.objects@)
        &&& ranks_of(self.data_ranks@, self.datas@)
        &&& ranks_of(self.permission_ranks@, self.permissions@)
    }
}

/// The rank of each entry of `marks` among the marked entries.
fn ranks(marks: &Vec<bool>) -> (r: Vec<usize>)
    ensures
        ranks_of(r@, marks@),
{
    let mut r: Vec<usize> = Vec::new();
    let mut count: usize = 0;
    let mut i: usize = 0;
    while i < marks.len()
        invariant
            i <= marks@.len(),
            r@.len() == i,
            count == rank(marks@, i as int),
            count <= i,
            forall|j: int| 0 <= j < i ==> #[trigger] r@[j] == rank(marks@, j),
        decreases marks@.len() - i,
    {
        r.push(count);
        if marks[i] {
            count += 1;
        }
        i += 1;
    }
    r
}

/// Whether a snapshot captures `data` as an object node.
fn captured_as_node(db: &Db, entry: Option<&ObjectData>) -> (r: bool)
    ensures
        r == is_node(
            db,
            match entry {
                Some(d) => Some(d@),
                None => None,
            },
        ),
{
    match entry {
        Some(ObjectData::Instance(i)) => i.class.index < db.classes.len(),
        Some(ObjectData::Tuple(_)) => true,
        Some(ObjectData::Thunk(_)) => true,
        _ => false,
    }
}

/// Whether a snapshot captures `data` as a data node.
fn captured_as_data(entry: Option<&ObjectData>) -> (r: bool)
    ensures
        r == is_data(
            match entry {
                Some(d) => Some(d@),
                None => None,
            },
        ),
{
    match entry {
        Some(ObjectData::Bool(_)) => true,
        Some(ObjectData::Uint(_)) => true,
        Some(ObjectData::Int(_)) => true,
        Some(ObjectData::Float(_)) => true,
        Some(ObjectData::String(_)) => true,
        Some(ObjectData::Unit) => true,
        Some(ObjectData::Intrinsic(_)) => true,
        _ => false,
    }
}

impl Machine {
    /// What a snapshot with `in_flight` captures.
    fn capture(&self, db: &Db, in_flight: Option<Value>) -> (r: Capture)
        ensures
            r@ == self@.capture_marks(db, in_flight),
            r.wf(),
            r.objects@.len() == self@.objects.len(),
            r.permissions@.len() == self@.permissions.len(),
    {
        let mut roots: Vec<Value> = Vec::new();
        match in_flight {
            Some(value) => {
                roots.push(value);
            },
            None => {},
        }
        assert(roots@ =~= in_flight_roots(in_flight));
        let (live, live_permissions) = self.mark(&roots);
        let mut objects: Vec<bool> = Vec::new();
        let mut datas: Vec<bool> = Vec::new();
        let mut i: usize = 0;
        while i < live.len()
            invariant
                i <= live@.len(),
                live@ == self@.live_objects(roots@),
                objects@.len() == i,
                datas@.len() == i,
                forall|j: int|
                    0 <= j < i ==> #[trigger] objects@[j] == (live@[j] && is_node(db, self@.objects[j])),
                forall|j: int|
                    0 <= j < i ==> #[trigger] datas@[j] == (live@[j] && is_data(self@.objects[j])),
            decreases live@.len() - i,
        {
            let entry = self.object(Object { index: i });
            objects.push(live[i] && captured_as_node(db, entry));
            datas.push(live[i] && captured_as_data(entry));
            i += 1;
        }
        let mut permissions: Vec<bool> = Vec::new();
        let mut i: usize = 0;
        while i < live_permissions.len()
            invariant
                i <= live_permissions@.len(),
                live_permissions@ == self@.live_permissions(roots@),
                permissions@.len() == i,
                forall|j: int|
                    0 <= j < i ==> #[trigger] permissions@[j] == (live_permissions@[j]
                        && self@.permissions[j] is Some),
            decreases live_permissions@.len() - i,
        {
            permissions.push(
                live_permissions[i] && self.permission(Permission { index: i }).is_some(),
            );
            i += 1;
        }
        let object_ranks = ranks(&objects);
        let data_ranks = ranks(&datas);
        let permission_ranks = ranks(&permissions);
        let r = Capture {
            objects,
            datas,
            live,
            permissions,
            object_ranks,
            data_ranks,
            permission_ranks,
        };
        assert(r@.objects =~= self@.capture_marks(db, in_flight).objects);
        assert(r@.datas =~= self@.capture_marks(db, in_flight).datas);
        assert(r@.permissions =~= self@.capture_marks(db, in_flight).permissions);
        r
    }

    /// The node that captures the permission `p`, if it is captured.
    fn permission_node_of(&self, capture: &Capture, p: Permission) -> (r: Option<PermissionNode>)
        requires
            capture.wf(),
        ensures
            r == self@.permission_node_of(capture@, p),
    {
        if p.index < capture.permissions.len() && capture.permissions[p.index] {
            Some(PermissionNode { index: capture.permission_ranks[p.index] })
        } else {
            None
        }
    }

    /// What an edge to the object `o` points to, if `o` is captured.
    fn target_of(&self, db: &Db, capture: &Capture, o: Object) -> (r: Option<ValueEdgeTarget>)
        requires
            capture.wf(),
        ensures
            r == self@.target_of(db, capture@, o),
    {
        if o.index < capture.live.len() && capture.live[o.index] {
            match self.object(o) {
                Some(ObjectData::Class(c)) => if c.index < db.classes.len() {
                    Some(ValueEdgeTarget::Class(*c))
                } else {
                    None
                },
                Some(ObjectData::Function(f)) => if f.index < db.functions.len() {
                    Some(ValueEdgeTarget::Function(*f))
                } else {
                    None
                },
                _ => if capture.objects[o.index] {
                    Some(ValueEdgeTarget::Object(ObjectNode { index: capture.object_ranks[o.index] }))
                } else if capture.datas[o.index] {
                    Some(ValueEdgeTarget::Data(DataNode { index: capture.data_ranks[o.index] }))
                } else {
                    None
                },
            }
        } else {
            None
        }
    }

    /// The edge that captures what `slot` holds.
    fn edge_of(&self, db: &Db, capture: &Capture, slot: Slot) -> (r: Option<ValueEdge>)
        requires
            capture.wf(),
        ensures
            r == self@.edge_of(db, capture@, slot),
    {
        match slot {
            Some(value) => match (
                self.permission_node_of(capture, value.permission),
                self.target_of(db, capture, value.object),
            ) {
                (Some(permission), Some(target)) => Some(ValueEdge { permission, target }),
                _ => None,
            },
            None => None,
        }
    }

    /// The nodes that capture the permissions.
    fn capture_permissions(&self, capture: &Capture) -> (r: Vec<PermissionNodeData>)
        requires
            capture.wf(),
            capture.permissions@.len() == self@.permissions.len(),
            forall|i: int|
                0 <= i < capture.permissions@.len() && capture.permissions@[i]
                    ==> self@.permissions[i] is Some,
        ensures
            r@ == self@.permission_nodes(capture@, self@.permissions.len() as int),
    {
        let mut r: Vec<PermissionNodeData> = Vec::new();
        let mut i: usize = 0;
        while i < capture.permissions.len()
            invariant
                i <= capture.permissions@.len(),
                capture.wf(),
                capture.permissions@.len() == self@.permissions.len(),
                forall|j: int|
                    0 <= j < capture.permissions@.len() && capture.permissions@[j]
                        ==> self@.permissions[j] is Some,
                r@ == self@.permission_nodes(capture@, i as int),
            decreases capture.permissions@.len() - i,
        {
            if capture.permissions[i] {
                match self.permission(Permission { index: i }) {
                    Some(data) => {
                        let tenant = match data.tenant {
                            Some(t) => self.permission_node_of(capture, t),
                            None => None,
                        };
                        let lessor = match data.lessor {
                            Some(l) => self.permission_node_of(capture, l),
                            None => None,
                        };
                        r.push(
                            PermissionNodeData {
                                source: Permission { index: i },
                                label: label(&data),
                                tenant,
                                lessor,
                            },
                        );
                    },
                    None => {},
                }
            }
            i += 1;
        }
        r
    }

    /// The edges that capture the slots of the object behind `o`.
    fn capture_slots(&self, db: &Db, capture: &Capture, o: Object) -> (r: Vec<Option<ValueEdge>>)
        requires
            capture.wf(),
            self@.object(o) is Some,
        ensures
            r@ == self@.edges_of(db, capture@, self@.object(o).unwrap().slots()),
    {
        let count = self.slot_count(o);
        let mut r: Vec<Option<ValueEdge>> = Vec::new();
        let mut k: usize = 0;
        while k < count
            invariant
                k <= count,
                capture.wf(),
                self@.object(o) is Some,
                count == self@.object(o).unwrap().slots().len(),
                r@.len() == k,
                forall|j: int|
                    0 <= j < k ==> #[trigger] r@[j] == self@.edge_of(
                        db,
                        capture@,
                        self@.object(o).unwrap().slots()[j],
                    ),
            decreases count - k,
        {
            r.push(self.edge_of(db, capture, self.object_slot(o, k)));
            k += 1;
        }
        assert(r@ =~= self@.edges_of(db, capture@, self@.object(o).unwrap().slots()));
        r
    }

    /// The nodes that capture the objects.
    fn capture_objects(&self, db: &Db, capture: &Capture) -> (r: Vec<ObjectNodeData>)
        requires
            capture.wf(),
            capture.objects@.len() == self@.objects.len(),
            forall|i: int|
                0 <= i < capture.objects@.len() && capture.objects@[i] ==> is_node(
                    db,
                    self@.objects[i],
                ),
        ensures
            Seq::new(r@.len(), |i: int| r@[i]@) == self@.object_nodes(
                db,
                capture@,
                self@.objects.len() as int,
            ),
    {
        let mut r: Vec<ObjectNodeData> = Vec::new();
        let mut i: usize = 0;
        assert(Seq::new(r@.len(), |j: int| r@[j]@) =~= self@.object_nodes(db, capture@, 0));
        while i < capture.objects.len()
            invariant
                i <= capture.objects@.len(),
                capture.wf(),
                capture.objects@.len() == self@.objects.len(),
                forall|j: int|
                    0 <= j < capture.objects@.len() && capture.objects@[j] ==> is_node(
                        db,
                        self@.objects[j],
                    ),
                Seq::new(r@.len(), |j: int| r@[j]@) == self@.object_nodes(db, capture@, i as int),
            decreases capture.objects@.len() - i,
        {
            if capture.objects[i] {
                let o = Object { index: i };
                let kind = match self.object(o) {
                    Some(ObjectData::Instance(instance)) => ObjectNodeKind::Instance(instance.class),
                    Some(ObjectData::Thunk(thunk)) => ObjectNodeKind::Thunk(thunk.callee),
                    _ => ObjectNodeKind::Tuple,
                };
                let fields = self.capture_slots(db, capture, o);
                let ghost before = Seq::new(r@.len(), |j: int| r@[j]@);
                let node = ObjectNodeData { object: o, kind, fields };
                r.push(node);
                assert(Seq::new(r@.len(), |j: int| r@[j]@) =~= before.push(
                    self@.object_node(db, capture@, i as int),
                ));
            }
            i += 1;
        }
        r
    }

    /// The nodes that capture the data.
    fn capture_datas(&self, capture: &Capture) -> (r: Vec<DataNodeData>)
        requires
            capture.wf(),
            capture.objects@.len() == self@.objects.len(),
            forall|i: int|
                0 <= i < capture.datas@.len() && capture.datas@[i] ==> self@.objects[i] is Some,
        ensures
            Seq::new(r@.len(), |i: int| r@[i]@) == self@.data_nodes(
                capture@,
                self@.objects.len() as int,
            ),
    {
        let mut r: Vec<DataNodeData> = Vec::new();
        let mut i: usize = 0;
        assert(Seq::new(r@.len(), |j: int| r@[j]@) =~= self@.data_nodes(capture@, 0));
        while i < capture.datas.len()
            invariant
                i <= capture.datas@.len(),
                capture.wf(),
                capture.objects@.len() == self@.objects.len(),
                forall|j: int|
                    0 <= j < capture.datas@.len() && capture.datas@[j] ==> self@.objects[j] is Some,
                Seq::new(r@.len(), |j: int| r@[j]@) == self@.data_nodes(capture@, i as int),
            decreases capture.datas@.len() - i,
        {
            if capture.datas[i] {
                let o = Object { index: i };
                match self.object(o) {
                    Some(data) => {
                        let ghost before = Seq::new(r@.len(), |j: int| r@[j]@);
                        r.push(DataNodeData { object: o, debug: data_debug(data) });
                        assert(Seq::new(r@.len(), |j: int| r@[j]@) =~= before.push(
                            self@.data_node(i as int),
                        ));
                    },
                    None => {},
                }
            }
            i += 1;
        }
        r
    }

    /// The node that captures frame `f`.
    fn capture_frame(&self, db: &Db, capture: &Capture, f: usize, in_flight: Option<Value>) -> (r:
        StackFrameNodeData)
        requires
            capture.wf(),
            db.wf(),
            self@.wf(db),
            f < self@.stack.len(),
        ensures
            r@ == self@.stack_node(db, capture@, f as int, in_flight),
    {
        let frame = self.frame(f);
        assert(self@.stack[f as int].wf(db));
        let code = frame.pc.bir.get(db);
        assert(db.birs@[frame.pc.bir.index as int].wf(db));
        let span = match code.data.tables.locate(frame.pc.basic_block, frame.pc.statement) {
            Some(point) => code.point_span(point),
            None => vstd::pervasive::unreached(),
        };
        let mut variables: Vec<LocalVariableEdge> = Vec::new();
        let mut i: usize = 0;
        while i < frame.variables.len()
            invariant
                i <= frame.variables@.len(),
                capture.wf(),
                frame.variables@.len() == code.data.tables.local_variables@.len(),
                variables@.len() == i,
                forall|j: int|
                    0 <= j < i ==> #[trigger] variables@[j] == (LocalVariableEdge {
                        id: LocalVariable { index: j as usize },
                        name: code.data.tables.local_variables@[j].name,
                        value: self@.edge_of(db, capture@, frame.variables@[j]),
                    }),
            decreases frame.variables@.len() - i,
        {
            variables.push(
                LocalVariableEdge {
                    id: LocalVariable { index: i },
                    name: code.data.tables.local_variables[i].name,
                    value: self.edge_of(db, capture, frame.variables[i]),
                },
            );
            i += 1;
        }
        let shown = if f == self.stack_len() - 1 && in_flight.is_some() {
            in_flight
        } else {
            frame.in_flight_value
        };
        let r = StackFrameNodeData {
            span,
            function_name: code.function_name,
            variables,
            in_flight_value: self.edge_of(db, capture, shown),
        };
        assert(r@.variables =~= self@.stack_node(db, capture@, f as int, in_flight).variables);
        r
    }
}

impl HeapGraph {
    /// The snapshot of `machine`, with `in_flight_value` as the value that
    /// the top frame has in flight.
    pub fn new(db: &Db, machine: &Machine, in_flight_value: Option<Value>) -> (graph: HeapGraph)
        requires
            db.wf(),
            machine@.wf(db),
        ensures
            graph@ == machine@.snapshot(db, in_flight_value),
            graph@.wf(db),
    {
        proof {
            machine.lemma_tables_fit();
            crate::heap_graph::faithful::law_snapshot_is_closed(machine@, db, in_flight_value);
        }
        let capture = machine.capture(db, in_flight_value);
        let permissions = machine.capture_permissions(&capture);
        let objects = machine.capture_objects(db, &capture);
        let datas = machine.capture_datas(&capture);
        let mut stack: Vec<StackFrameNodeData> = Vec::new();
        let mut f: usize = 0;
        while f < machine.stack_len()
            invariant
                f <= machine@.stack.len(),
                capture.wf(),
                db.wf(),
                machine@.wf(db),
                stack@.len() == f,
                forall|g: int|
                    0 <= g < f ==> (#[trigger] stack@[g])@ == machine@.stack_node(
                        db,
                        capture@,
                        g,
                        in_flight_value,
                    ),
            decreases machine@.stack.len() - f,
        {
            stack.push(machine.capture_frame(db, &capture, f, in_flight_value));
            f += 1;
        }
        let graph = HeapGraph { stack, objects, datas, permissions };
        assert(graph@.stack =~= machine@.snapshot(db, in_flight_value).stack);
        graph
    }
}

} // verus!
