//! A rendering is complete: every node that an edge leads to is written, and
//! the bound on the number of nodes never cuts a rendering short.
use vstd::prelude::*;
use vstd::set_lib::*;
use crate::db::Db;
use crate::heap_graph::graphviz::{
    frame_edges, frame_names, header_line, index_of_target, next_port, node_field_names, node_title,
    word_text, WriterModel,
};
use crate::heap_graph::{HeapGraphModel, ValueEdge, ValueEdgeTarget};

verus! {

/// What `index_of_target` finds: the first position from `from` on at which
/// `target` stands, or the length if it stands nowhere from there on.
pub proof fn lemma_index_of_target(targets: Seq<ValueEdgeTarget>, target: ValueEdgeTarget, from: int)
    requires
        0 <= from <= targets.len(),
    ensures
        from <= index_of_target(targets, target, from) <= targets.len(),
        index_of_target(targets, target, from) < targets.len() ==> targets[index_of_target(
            targets,
            target,
            from,
        )] == target,
        forall|j: int| from <= j < index_of_target(targets, target, from) ==> targets[j] != target,
    decreases targets.len() - from,
{
    if from < targets.len() && targets[from] != target {
        lemma_index_of_target(targets, target, from + 1);
    }
}

impl HeapGraphModel {
    /// Whether `target` gets a node of its own: it is an object node of the
    /// snapshot or a class or function of the program.
    pub open spec fn is_node_target(self, db: &Db, target: ValueEdgeTarget) -> bool {
        match target {
            ValueEdgeTarget::Object(n) => n.index < self.objects.len(),
            ValueEdgeTarget::Class(c) => c.valid(db),
            ValueEdgeTarget::Function(f) => f.valid(db),
            ValueEdgeTarget::Data(_) => false,
        }
    }

    /// A number for each target that gets a node, different for different
    /// targets and below the number of such targets.
    pub open spec fn target_code(self, db: &Db, target: ValueEdgeTarget) -> int {
        match target {
            ValueEdgeTarget::Object(n) => n.index as int,
            ValueEdgeTarget::Class(c) => self.objects.len() + c.index,
            ValueEdgeTarget::Function(f) => self.objects.len() + db.classes@.len() + f.index,
            ValueEdgeTarget::Data(d) => -1,
        }
    }

    /// How many targets get a node at most.
    pub open spec fn node_bound(self, db: &Db) -> int {
        (self.objects.len() + db.classes@.len() + db.functions@.len()) as int
    }

    /// The numbered nodes are distinct targets that get a node, and every
    /// node in the queue is numbered.
    pub open spec fn orderly(self, db: &Db, w: WriterModel) -> bool {
        &&& w.node_set.no_duplicates()
        &&& forall|i: int| 0 <= i < w.node_set.len() ==> self.is_node_target(db, #[trigger] w.node_set[i])
        &&& forall|i: int| 0 <= i < w.node_queue.len() ==> w.node_set.contains(#[trigger] w.node_queue[i])
    }

    /// `after` continues the rendering of `before`: the nodes are still
    /// orderly, what was numbered is numbered, what was queued is queued, and
    /// as many nodes were queued as were numbered.
    pub open spec fn continues(self, db: &Db, before: WriterModel, after: WriterModel) -> bool {
        &&& self.orderly(db, after)
        &&& after.node_set.len() - before.node_set.len() == after.node_queue.len()
            - before.node_queue.len()
        &&& after.node_set.len() >= before.node_set.len()
        &&& forall|t: ValueEdgeTarget| before.node_set.contains(t) ==> after.node_set.contains(t)
        &&& after.include_temporaries == before.include_temporaries
        &&& after.name_prefix == before.name_prefix
    }
}

/// There are no more numbered nodes than targets that get a node.
pub proof fn lemma_numbered_bound(graph: HeapGraphModel, db: &Db, w: WriterModel)
    requires
        graph.orderly(db, w),
    ensures
        w.node_set.len() <= graph.node_bound(db),
{
    let codes = w.node_set.map_values(|t: ValueEdgeTarget| graph.target_code(db, t));
    assert forall|i: int, j: int| 0 <= i < codes.len() && 0 <= j < codes.len() && i != j implies codes[i]
        != codes[j] by {
        assert(graph.is_node_target(db, w.node_set[i]));
        assert(graph.is_node_target(db, w.node_set[j]));
        assert(w.node_set[i] != w.node_set[j]);
    }
    assert(codes.no_duplicates());
    codes.unique_seq_to_set();
    let range = set_int_range(0, graph.node_bound(db));
    lemma_int_range(0, graph.node_bound(db));
    assert forall|c: int| codes.to_set().contains(c) implies range.contains(c) by {
        let i = choose|i: int| 0 <= i < codes.len() && codes[i] == c;
        assert(graph.is_node_target(db, w.node_set[i]));
    }
    lemma_len_subset(codes.to_set(), range);
}

/// Naming the node of a target that gets a node continues the rendering.
pub proof fn lemma_node_name_continues(graph: HeapGraphModel, db: &Db, w: WriterModel, target: ValueEdgeTarget)
    requires
        graph.orderly(db, w),
        graph.is_node_target(db, target),
    ensures
        graph.continues(db, w, w.node_name(target).0),
        w.node_name(target).0.node_set.contains(target),
        w.node_set.contains(target) ==> w.node_name(target).0 == w,
        w.node_name(target).0.output == w.output,
        w.node_name(target).0.indent == w.indent,
        w.node_name(target).0.value_edge_list == w.value_edge_list,
{
    lemma_index_of_target(w.node_set, target, 0);
    let index = index_of_target(w.node_set, target, 0);
    let after = w.node_name(target).0;
    if index < w.node_set.len() {
        assert(w.node_set[index] == target);
    } else {
        assert(after.node_set[w.node_set.len() as int] == target);
        assert forall|i: int, j: int|
            0 <= i < after.node_set.len() && 0 <= j < after.node_set.len() && i != j implies after.node_set[i]
            != after.node_set[j] by {
            if i < w.node_set.len() && j < w.node_set.len() {
                assert(w.node_set[i] != w.node_set[j]);
            }
        }
        assert forall|i: int| 0 <= i < after.node_queue.len() implies after.node_set.contains(
            #[trigger] after.node_queue[i],
        ) by {
            if i < w.node_queue.len() {
                let k = choose|k: int| 0 <= k < w.node_set.len() && w.node_set[k] == w.node_queue[i];
                assert(after.node_set[k] == w.node_queue[i]);
            }
        }
        assert forall|t: ValueEdgeTarget| w.node_set.contains(t) implies after.node_set.contains(t) by {
            let k = choose|k: int| 0 <= k < w.node_set.len() && w.node_set[k] == t;
            assert(after.node_set[k] == t);
        }
    }
    if w.node_set.contains(target) {
        let k = choose|k: int| 0 <= k < w.node_set.len() && w.node_set[k] == target;
        assert(index <= k);
    }
}

/// Continuing is transitive.
pub proof fn lemma_continues_trans(graph: HeapGraphModel, db: &Db, a: WriterModel, b: WriterModel, c: WriterModel)
    requires
        graph.continues(db, a, b),
        graph.continues(db, b, c),
    ensures
        graph.continues(db, a, c),
{
}

/// Writing the row of a field continues the rendering.
pub proof fn lemma_print_field_continues(
    graph: HeapGraphModel,
    db: &Db,
    w: WriterModel,
    edge: Option<ValueEdge>,
    name: Option<Seq<char>>,
    source: Seq<char>,
    index: usize,
)
    requires
        graph.orderly(db, w),
        graph.slot_wf(db, edge),
    ensures
        graph.continues(db, w, graph.print_field(w, edge, name, source, index)),
{
    match (name, edge) {
        (Some(name), Some(edge)) => {
            match edge.target {
                ValueEdgeTarget::Data(_) => {},
                _ => {
                    let w1 = WriterModel {
                        permissions: w.permissions.push(
                            (edge.permission, crate::heap_graph::graphviz::PlaceModel { node: source, port: index }),
                        ),
                        ..w
                    };
                    let w2 = w1.println(crate::heap_graph::graphviz::row_line(index, name));
                    assert(graph.orderly(db, w2));
                    lemma_node_name_continues(graph, db, w2, edge.target);
                },
            }
        },
        _ => {},
    }
}

/// Writing the rows of fields continues the rendering.
pub proof fn lemma_print_fields_continues(
    graph: HeapGraphModel,
    db: &Db,
    w: WriterModel,
    source: Seq<char>,
    names: Seq<Option<Seq<char>>>,
    edges: Seq<Option<ValueEdge>>,
    index: usize,
    from: int,
)
    requires
        graph.orderly(db, w),
        forall|k: int| 0 <= k < edges.len() ==> graph.slot_wf(db, #[trigger] edges[k]),
    ensures
        graph.continues(db, w, graph.print_fields(w, source, names, edges, index, from).0),
    decreases edges.len() - from,
{
    if 0 <= from < edges.len() && from < names.len() {
        lemma_print_field_continues(graph, db, w, edges[from], names[from], source, index);
        let w1 = graph.print_field(w, edges[from], names[from], source, index);
        lemma_print_fields_continues(graph, db, w1, source, names, edges, next_port(index), from + 1);
        lemma_continues_trans(
            graph,
            db,
            w,
            w1,
            graph.print_fields(w1, source, names, edges, next_port(index), from + 1).0,
        );
    }
}

/// Writing the rows of frames continues the rendering.
pub proof fn lemma_print_frames_continues(
    graph: HeapGraphModel,
    db: &Db,
    w: WriterModel,
    source: Seq<char>,
    index: usize,
    from: int,
)
    requires
        graph.orderly(db, w),
        graph.wf(db),
    ensures
        graph.continues(db, w, graph.print_frames(w, db, source, index, from)),
    decreases graph.stack.len() - from,
{
    if 0 <= from < graph.stack.len() {
        let frame = graph.stack[from];
        let w1 = w.println(header_line(word_text(db, frame.function_name)));
        assert(graph.continues(db, w, w1));
        assert forall|k: int| 0 <= k < frame_edges(frame).len() implies graph.slot_wf(
            db,
            #[trigger] frame_edges(frame)[k],
        ) by {
            assert(graph.slot_wf(db, graph.stack[from].variables[k].value));
        }
        lemma_print_fields_continues(
            graph,
            db,
            w1,
            source,
            frame_names(db, frame, w1.include_temporaries),
            frame_edges(frame),
            index,
            0,
        );
        let (w2, index2) = graph.print_fields(
            w1,
            source,
            frame_names(db, frame, w1.include_temporaries),
            frame_edges(frame),
            index,
            0,
        );
        lemma_continues_trans(graph, db, w, w1, w2);
        match frame.in_flight_value {
            Some(edge) => {
                assert(graph.slot_wf(db, graph.stack[from].in_flight_value));
                lemma_print_field_continues(graph, db, w2, Some(edge), Some("(in-flight)"@), source, index2);
                let w3 = graph.print_field(w2, Some(edge), Some("(in-flight)"@), source, index2);
                lemma_continues_trans(graph, db, w, w2, w3);
                lemma_print_frames_continues(graph, db, w3, source, next_port(index2), from + 1);
                lemma_continues_trans(
                    graph,
                    db,
                    w,
                    w3,
                    graph.print_frames(w3, db, source, next_port(index2), from + 1),
                );
            },
            None => {
                lemma_print_frames_continues(graph, db, w2, source, index2, from + 1);
                lemma_continues_trans(graph, db, w, w2, graph.print_frames(w2, db, source, index2, from + 1));
            },
        }
    }
}

/// Writing the cluster of the stack continues the rendering.
pub proof fn lemma_print_stack_continues(graph: HeapGraphModel, db: &Db, w: WriterModel)
    requires
        graph.orderly(db, w),
        graph.wf(db),
    ensures
        graph.continues(db, w, graph.print_stack(w, db)),
{
    let name = w.name_prefix + "stack"@;
    let w1 = w.indent("subgraph cluster_"@ + w.name_prefix + "stack {"@);
    let w2 = w1.println("label=<<b>stack</b>>"@);
    let w3 = w2.println("rank=\"source\";"@);
    let w4 = w3.indent(name + "["@);
    let w5 = w4.println("shape=\"none\";"@);
    let w6 = w5.indent("label=<"@);
    let w7 = w6.println("<table border=\"0\">"@);
    assert(graph.continues(db, w, w7));
    lemma_print_frames_continues(graph, db, w7, name, 0, 0);
    let w8 = graph.print_frames(w7, db, name, 0, 0);
    lemma_continues_trans(graph, db, w, w7, w8);
}

/// Writing a node that is numbered continues the rendering.
pub proof fn lemma_print_heap_node_continues(
    graph: HeapGraphModel,
    db: &Db,
    w: WriterModel,
    target: ValueEdgeTarget,
)
    requires
        graph.orderly(db, w),
        graph.wf(db),
        w.node_set.contains(target),
    ensures
        graph.continues(db, w, graph.print_heap_node(w, db, target)),
{
    let k = choose|k: int| 0 <= k < w.node_set.len() && w.node_set[k] == target;
    assert(graph.is_node_target(db, w.node_set[k]));
    lemma_node_name_continues(graph, db, w, target);
    let (w1, name) = w.node_name(target);
    let w2 = w1.indent(name + " ["@);
    assert(graph.continues(db, w, w2));
    match target {
        ValueEdgeTarget::Object(o) => {
            let node = graph.objects[o.index as int];
            let w3 = w2.indent("label = <<table border=\"0\">"@);
            let w4 = w3.println(header_line(node_title(db, node.kind)));
            assert(graph.continues(db, w, w4));
            assert forall|k: int| 0 <= k < node.fields.len() implies graph.slot_wf(
                db,
                #[trigger] node.fields[k],
            ) by {
                assert(graph.slot_wf(db, graph.objects[o.index as int].fields[k]));
            }
            lemma_print_fields_continues(graph, db, w4, name, node_field_names(db, node), node.fields, 0, 0);
            let w5 = graph.print_fields(w4, name, node_field_names(db, node), node.fields, 0, 0).0;
            lemma_continues_trans(graph, db, w, w4, w5);
        },
        _ => {},
    }
}

/// Emptying the queue writes every numbered node, if the budget covers the
/// nodes that are queued and those that are not numbered yet.
pub proof fn lemma_print_heap_empties(graph: HeapGraphModel, db: &Db, w: WriterModel, budget: usize)
    requires
        graph.orderly(db, w),
        graph.wf(db),
        budget >= w.node_queue.len() + graph.node_bound(db) - w.node_set.len(),
    ensures
        graph.print_heap(w, db, budget).node_queue.len() == 0,
        graph.orderly(db, graph.print_heap(w, db, budget)),
    decreases budget,
{
    lemma_numbered_bound(graph, db, w);
    if budget > 0 && w.node_queue.len() > 0 {
        let target = w.node_queue.last();
        let popped = WriterModel { node_queue: w.node_queue.drop_last(), ..w };
        assert(w.node_set.contains(w.node_queue[w.node_queue.len() - 1]));
        assert forall|i: int| 0 <= i < popped.node_queue.len() implies popped.node_set.contains(
            #[trigger] popped.node_queue[i],
        ) by {
            assert(w.node_set.contains(w.node_queue[i]));
        }
        lemma_print_heap_node_continues(graph, db, popped, target);
        let next = graph.print_heap_node(popped, db, target);
        lemma_print_heap_empties(graph, db, next, (budget - 1) as usize);
    }
}

/// Every node is written.
///
/// In the rendering of a closed snapshot, whose object nodes together with
/// the classes and functions of the program are no more than can be counted,
/// no node that an edge leads to is left in the queue: the bound on the
/// number of nodes does not cut the rendering short.
pub proof fn law_every_node_is_written(
    graph: HeapGraphModel,
    db: &Db,
    include_temporaries: bool,
    name_prefix: Seq<char>,
    indent: usize,
)
    requires
        graph.wf(db),
        graph.node_bound(db) <= usize::MAX,
    ensures
        graph.stack_and_heap(WriterModel::start(include_temporaries, name_prefix, indent), db).node_queue.len()
            == 0,
{
    let start = WriterModel::start(include_temporaries, name_prefix, indent);
    assert(graph.orderly(db, start));
    lemma_print_stack_continues(graph, db, start);
    let w1 = graph.print_stack(start, db);
    lemma_print_heap_empties(graph, db, w1, graph.node_budget(db));
    let w2 = graph.print_heap(w1, db, graph.node_budget(db));
    lemma_print_edges_keeps_queue(
        graph,
        WriterModel { value_edge_list: Seq::empty(), ..w2 },
        w2.value_edge_list,
        0,
    );
}

/// Writing the edges leaves the queue as it is.
pub proof fn lemma_print_edges_keeps_queue(
    graph: HeapGraphModel,
    w: WriterModel,
    edges: Seq<crate::heap_graph::graphviz::EdgeModel>,
    from: int,
)
    ensures
        graph.print_edges(w, edges, from).node_queue == w.node_queue,
    decreases edges.len() - from,
{
    if 0 <= from < edges.len() {
        let edge = edges[from];
        let line = if edge.permission.index < graph.permissions.len() {
            let data = graph.permissions[edge.permission.index as int];
            crate::heap_graph::graphviz::edge_line(edge.source, edge.target, data.label.text(), data.tenant is Some)
        } else {
            crate::heap_graph::graphviz::edge_line(edge.source, edge.target, Seq::empty(), false)
        };
        lemma_print_edges_keeps_queue(graph, w.println(line), edges, from + 1);
    }
}

} // verus!
