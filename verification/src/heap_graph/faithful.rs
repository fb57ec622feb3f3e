//! A snapshot is faithful: it is closed, and every edge leads to the node
//! that captures what the value of the edge refers to.
use vstd::prelude::*;
use crate::db::Db;
use crate::heap_graph::{
    data_text, label_of, node_kind, rank, CaptureMarks, HeapGraphModel, ValueEdge, ValueEdgeTarget,
};
use crate::model::{MachineModel, Object, ObjectModel, Value};

verus! {

impl HeapGraphModel {
    /// Whether `edge` leads to nodes of the snapshot and to classes and
    /// functions of the program.
    pub open spec fn edge_wf(self, db: &Db, edge: ValueEdge) -> bool {
        &&& edge.permission.index < self.permissions.len()
        &&& match edge.target {
            ValueEdgeTarget::Object(n) => n.index < self.objects.len(),
            ValueEdgeTarget::Data(d) => d.index < self.datas.len(),
            ValueEdgeTarget::Class(c) => c.valid(db),
            ValueEdgeTarget::Function(f) => f.valid(db),
        }
    }

    /// Whether `edge`, if there is one, leads to nodes of the snapshot.
    pub open spec fn slot_wf(self, db: &Db, edge: Option<ValueEdge>) -> bool {
        match edge {
            Some(e) => self.edge_wf(db, e),
            None => true,
        }
    }

    /// Whether `node`, if there is one, is a permission node of the snapshot.
    pub open spec fn link_wf(self, node: Option<crate::heap_graph::PermissionNode>) -> bool {
        match node {
            Some(n) => n.index < self.permissions.len(),
            None => true,
        }
    }

    /// The snapshot is closed: every edge of a frame and of an object node
    /// leads to nodes of the snapshot, and so do the tenant and the lessor of
    /// every permission node.
    pub open spec fn wf(self, db: &Db) -> bool {
        &&& forall|f: int, i: int|
            0 <= f < self.stack.len() && 0 <= i < self.stack[f].variables.len() ==> self.slot_wf(
                db,
                (#[trigger] self.stack[f].variables[i]).value,
            )
        &&& forall|f: int|
            0 <= f < self.stack.len() ==> self.slot_wf(db, (#[trigger] self.stack[f]).in_flight_value)
        &&& forall|n: int, k: int|
            0 <= n < self.objects.len() && 0 <= k < self.objects[n].fields.len() ==> self.slot_wf(
                db,
                #[trigger] self.objects[n].fields[k],
            )
        &&& forall|p: int|
            0 <= p < self.permissions.len() ==> self.link_wf((#[trigger] self.permissions[p]).tenant)
                && self.link_wf(self.permissions[p].lessor)
    }
}

/// The rank grows with the index.
pub proof fn lemma_rank_monotone(marks: Seq<bool>, i: int, j: int)
    requires
        i <= j,
    ensures
        rank(marks, i) <= rank(marks, j),
        rank(marks, j) <= if j < 0 {
            0
        } else {
            j
        },
    decreases
        (if j > 0 {
            j
        } else {
            0
        }),
{
    if j > 0 {
        if i < j {
            lemma_rank_monotone(marks, i, j - 1);
        } else {
            lemma_rank_monotone(marks, i - 1, j - 1);
        }
    }
}

/// A marked entry has a smaller rank than every entry after it.
pub proof fn lemma_rank_strict(marks: Seq<bool>, i: int, j: int)
    requires
        0 <= i < j,
        i < marks.len(),
        marks[i],
    ensures
        rank(marks, i) < rank(marks, j),
{
    lemma_rank_monotone(marks, i + 1, j);
}

/// The permission nodes below `upto`: there are as many as there are marked
/// permissions, and the node of a marked permission stands at its rank.
pub proof fn lemma_permission_nodes(m: MachineModel, marks: CaptureMarks, upto: int, i: int)
    ensures
        m.permission_nodes(marks, upto).len() == rank(marks.permissions, upto),
        0 <= i < upto && i < marks.permissions.len() && marks.permissions[i] ==> m.permission_nodes(
            marks,
            upto,
        )[rank(marks.permissions, i) as int] == m.permission_node(marks, i),
    decreases upto,
{
    if upto > 0 {
        lemma_permission_nodes(m, marks, upto - 1, i);
        if 0 <= i < upto - 1 && i < marks.permissions.len() && marks.permissions[i] {
            lemma_rank_strict(marks.permissions, i, upto - 1);
        }
    }
}

/// The object nodes below `upto`: there are as many as there are marked
/// objects, and the node of a marked object stands at its rank.
pub proof fn lemma_object_nodes(m: MachineModel, db: &Db, marks: CaptureMarks, upto: int, i: int)
    ensures
        m.object_nodes(db, marks, upto).len() == rank(marks.objects, upto),
        0 <= i < upto && i < marks.objects.len() && marks.objects[i] ==> m.object_nodes(db, marks, upto)[rank(
            marks.objects,
            i,
        ) as int] == m.object_node(db, marks, i),
    decreases upto,
{
    if upto > 0 {
        lemma_object_nodes(m, db, marks, upto - 1, i);
        if 0 <= i < upto - 1 && i < marks.objects.len() && marks.objects[i] {
            lemma_rank_strict(marks.objects, i, upto - 1);
        }
    }
}

/// The data nodes below `upto`: there are as many as there are marked data,
/// and the node of a marked datum stands at its rank.
pub proof fn lemma_data_nodes(m: MachineModel, marks: CaptureMarks, upto: int, i: int)
    ensures
        m.data_nodes(marks, upto).len() == rank(marks.datas, upto),
        0 <= i < upto && i < marks.datas.len() && marks.datas[i] ==> m.data_nodes(marks, upto)[rank(
            marks.datas,
            i,
        ) as int] == m.data_node(i),
    decreases upto,
{
    if upto > 0 {
        lemma_data_nodes(m, marks, upto - 1, i);
        if 0 <= i < upto - 1 && i < marks.datas.len() && marks.datas[i] {
            lemma_rank_strict(marks.datas, i, upto - 1);
        }
    }
}

/// Every object node below `upto` captures a marked object.
pub proof fn lemma_object_nodes_all(m: MachineModel, db: &Db, marks: CaptureMarks, upto: int, n: int)
    requires
        0 <= n < m.object_nodes(db, marks, upto).len(),
    ensures
        exists|i: int|
            0 <= i < upto && i < marks.objects.len() && marks.objects[i] && #[trigger] m.object_node(
                db,
                marks,
                i,
            ) == m.object_nodes(db, marks, upto)[n],
    decreases upto,
{
    if upto > 0 {
        let rest = m.object_nodes(db, marks, upto - 1);
        if n < rest.len() {
            lemma_object_nodes_all(m, db, marks, upto - 1, n);
            let i = choose|i: int|
                0 <= i < upto - 1 && i < marks.objects.len() && marks.objects[i] && #[trigger] m.object_node(
                    db,
                    marks,
                    i,
                ) == rest[n];
            assert(m.object_node(db, marks, i) == m.object_nodes(db, marks, upto)[n]);
        } else {
            assert(m.object_node(db, marks, upto - 1) == m.object_nodes(db, marks, upto)[n]);
        }
    }
}

/// Every permission node below `upto` captures a marked permission.
pub proof fn lemma_permission_nodes_all(m: MachineModel, marks: CaptureMarks, upto: int, n: int)
    requires
        0 <= n < m.permission_nodes(marks, upto).len(),
    ensures
        exists|i: int|
            0 <= i < upto && i < marks.permissions.len() && marks.permissions[i]
                && #[trigger] m.permission_node(marks, i) == m.permission_nodes(marks, upto)[n],
    decreases upto,
{
    if upto > 0 {
        let rest = m.permission_nodes(marks, upto - 1);
        if n < rest.len() {
            lemma_permission_nodes_all(m, marks, upto - 1, n);
            let i = choose|i: int|
                0 <= i < upto - 1 && i < marks.permissions.len() && marks.permissions[i]
                    && #[trigger] m.permission_node(marks, i) == rest[n];
            assert(m.permission_node(marks, i) == m.permission_nodes(marks, upto)[n]);
        } else {
            assert(m.permission_node(marks, upto - 1) == m.permission_nodes(marks, upto)[n]);
        }
    }
}

/// A snapshot is a faithful copy.
///
/// The edge that captures a value leads to nodes of the snapshot.  Its
/// permission node captures the permission of the value, with its label.  If
/// the value is an instance, a tuple or a thunk, the edge leads to the object
/// node that captures the object of the value, of the same kind, and the
/// fields of that node are the edges that capture the slots of the object.  If
/// the value is a datum, the edge leads to the data node that captures it and
/// shows its text.  If it is a class or a function, the edge names it.
pub proof fn law_snapshot_is_faithful(m: MachineModel, db: &Db, in_flight: Option<Value>, value: Value)
    requires
        m.objects.len() <= usize::MAX,
        m.permissions.len() <= usize::MAX,
        m.edge_of(db, m.capture_marks(db, in_flight), Some(value)) is Some,
    ensures
        ({
            let graph = m.snapshot(db, in_flight);
            let marks = m.capture_marks(db, in_flight);
            let edge = m.edge_of(db, marks, Some(value)).unwrap();
            &&& graph.edge_wf(db, edge)
            &&& m.permission(value.permission) is Some
            &&& m.object(value.object) is Some
            &&& graph.permissions[edge.permission.index as int].source == value.permission
            &&& graph.permissions[edge.permission.index as int].label == label_of(
                m.permission(value.permission).unwrap(),
            )
            &&& match edge.target {
                ValueEdgeTarget::Object(n) => {
                    &&& graph.objects[n.index as int].object == value.object
                    &&& graph.objects[n.index as int].kind == node_kind(m.object(value.object).unwrap())
                    &&& graph.objects[n.index as int].fields == m.edges_of(
                        db,
                        marks,
                        m.object(value.object).unwrap().slots(),
                    )
                },
                ValueEdgeTarget::Data(d) => {
                    &&& graph.datas[d.index as int].object == value.object
                    &&& graph.datas[d.index as int].debug == data_text(m.object(value.object).unwrap())
                },
                ValueEdgeTarget::Class(c) => m.object(value.object) == Some(ObjectModel::Class(c)),
                ValueEdgeTarget::Function(f) => m.object(value.object) == Some(ObjectModel::Function(f)),
            }
        }),
{
    let marks = m.capture_marks(db, in_flight);
    let p = value.permission.index as int;
    let o = value.object.index as int;
    lemma_permission_nodes(m, marks, m.permissions.len() as int, p);
    lemma_rank_strict(marks.permissions, p, m.permissions.len() as int);
    lemma_rank_monotone(marks.permissions, p, m.permissions.len() as int);
    lemma_object_nodes(m, db, marks, m.objects.len() as int, o);
    lemma_data_nodes(m, marks, m.objects.len() as int, o);
    lemma_rank_monotone(marks.objects, o, m.objects.len() as int);
    lemma_rank_monotone(marks.datas, o, m.objects.len() as int);
    if marks.objects[o] {
        lemma_rank_strict(marks.objects, o, m.objects.len() as int);
    }
    if marks.datas[o] {
        lemma_rank_strict(marks.datas, o, m.objects.len() as int);
    }
}

/// A snapshot is closed.
pub proof fn law_snapshot_is_closed(m: MachineModel, db: &Db, in_flight: Option<Value>)
    requires
        m.objects.len() <= usize::MAX,
        m.permissions.len() <= usize::MAX,
    ensures
        m.snapshot(db, in_flight).wf(db),
{
    let graph = m.snapshot(db, in_flight);
    let marks = m.capture_marks(db, in_flight);
    assert forall|f: int, i: int|
        0 <= f < graph.stack.len() && 0 <= i < graph.stack[f].variables.len() implies graph.slot_wf(
        db,
        (#[trigger] graph.stack[f].variables[i]).value,
    ) by {
        match m.stack[f].variables[i] {
            Some(value) => {
                if m.edge_of(db, marks, Some(value)) is Some {
                    law_snapshot_is_faithful(m, db, in_flight, value);
                }
            },
            None => {},
        }
    }
    assert forall|f: int| 0 <= f < graph.stack.len() implies graph.slot_wf(
        db,
        (#[trigger] graph.stack[f]).in_flight_value,
    ) by {
        let shown = if f == m.stack.len() - 1 && in_flight is Some {
            in_flight
        } else {
            m.stack[f].in_flight_value
        };
        match shown {
            Some(value) => {
                if m.edge_of(db, marks, Some(value)) is Some {
                    law_snapshot_is_faithful(m, db, in_flight, value);
                }
            },
            None => {},
        }
    }
    assert forall|n: int, k: int|
        0 <= n < graph.objects.len() && 0 <= k < graph.objects[n].fields.len() implies graph.slot_wf(
        db,
        #[trigger] graph.objects[n].fields[k],
    ) by {
        lemma_object_nodes_all(m, db, marks, m.objects.len() as int, n);
        let i = choose|i: int|
            0 <= i < m.objects.len() && i < marks.objects.len() && marks.objects[i] && #[trigger] m.object_node(
                db,
                marks,
                i,
            ) == graph.objects[n];
        match m.objects[i].unwrap().slots()[k] {
            Some(value) => {
                if m.edge_of(db, marks, Some(value)) is Some {
                    law_snapshot_is_faithful(m, db, in_flight, value);
                }
            },
            None => {},
        }
    }
    assert forall|p: int| 0 <= p < graph.permissions.len() implies graph.link_wf(
        (#[trigger] graph.permissions[p]).tenant,
    ) && graph.link_wf(graph.permissions[p].lessor) by {
        lemma_permission_nodes_all(m, marks, m.permissions.len() as int, p);
        let i = choose|i: int|
            0 <= i < m.permissions.len() && i < marks.permissions.len() && marks.permissions[i]
                && #[trigger] m.permission_node(marks, i) == graph.permissions[p];
        let data = m.permissions[i].unwrap();
        lemma_permission_nodes(m, marks, m.permissions.len() as int, 0);
        match data.tenant {
            Some(t) => {
                if m.permission_node_of(marks, t) is Some {
                    lemma_rank_strict(marks.permissions, t.index as int, m.permissions.len() as int);
                    lemma_rank_monotone(marks.permissions, t.index as int, m.permissions.len() as int);
                }
            },
            None => {},
        }
        match data.lessor {
            Some(l) => {
                if m.permission_node_of(marks, l) is Some {
                    lemma_rank_strict(marks.permissions, l.index as int, m.permissions.len() as int);
                    lemma_rank_monotone(marks.permissions, l.index as int, m.permissions.len() as int);
                }
            },
            None => {},
        }
    }
}

} // verus!
