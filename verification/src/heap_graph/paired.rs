//! Two renderings of one snapshot that differ in the prefix of their names
//! are alike: they number the same nodes in the same order and draw the same
//! edges between the same ports, and only the prefix tells their names apart.
use vstd::prelude::*;
use crate::db::Db;
use crate::heap_graph::graphviz::{
    frame_edges, frame_names, header_line, index_of_target, next_port, node_field_names, node_title,
    row_line, word_text, EdgeModel, PlaceModel, WriterModel,
};
use crate::heap_graph::{HeapGraphModel, ValueEdge, ValueEdgeTarget};
use crate::text::decimal;

verus! {

/// Whether the names `a` and `b` are one name behind the prefixes `pa` and
/// `pb`.
pub open spec fn same_name(pa: Seq<char>, a: Seq<char>, pb: Seq<char>, b: Seq<char>) -> bool {
    exists|name: Seq<char>| a == pa + name && b == pb + name
}

/// Whether the edges `a` and `b` are one edge, drawn with the prefixes `pa`
/// and `pb`.
pub open spec fn same_edge(pa: Seq<char>, a: EdgeModel, pb: Seq<char>, b: EdgeModel) -> bool {
    &&& a.source.port == b.source.port
    &&& a.permission == b.permission
    &&& same_name(pa, a.source.node, pb, b.source.node)
    &&& same_name(pa, a.target, pb, b.target)
}

/// Whether the two renderings are alike: they have numbered the same nodes
/// in the same order, have the same nodes left to write, stand at the same
/// indentation, and have gathered the same edges and the same rows, with
/// names that only the prefix tells apart.
pub open spec fn alike(a: WriterModel, b: WriterModel) -> bool {
    &&& a.include_temporaries == b.include_temporaries
    &&& a.node_queue == b.node_queue
    &&& a.node_set == b.node_set
    &&& a.indent == b.indent
    &&& a.value_edge_list.len() == b.value_edge_list.len()
    &&& forall|i: int|
        0 <= i < a.value_edge_list.len() ==> same_edge(
            a.name_prefix,
            #[trigger] a.value_edge_list[i],
            b.name_prefix,
            b.value_edge_list[i],
        )
    &&& a.permissions.len() == b.permissions.len()
    &&& forall|i: int|
        0 <= i < a.permissions.len() ==> (#[trigger] a.permissions[i]).0 == b.permissions[i].0
            && a.permissions[i].1.port == b.permissions[i].1.port && same_name(
            a.name_prefix,
            a.permissions[i].1.node,
            b.name_prefix,
            b.permissions[i].1.node,
        )
}

/// Writing a line each keeps two renderings alike.
pub proof fn lemma_println_alike(a: WriterModel, b: WriterModel, la: Seq<char>, lb: Seq<char>)
    requires
        alike(a, b),
    ensures
        alike(a.println(la), b.println(lb)),
        alike(a.indent(la), b.indent(lb)),
        alike(a.undent(la), b.undent(lb)),
        a.println(la).name_prefix == a.name_prefix,
        a.indent(la).name_prefix == a.name_prefix,
        a.undent(la).name_prefix == a.name_prefix,
        b.println(lb).name_prefix == b.name_prefix,
        b.indent(lb).name_prefix == b.name_prefix,
        b.undent(lb).name_prefix == b.name_prefix,
{
    assert forall|i: int| 0 <= i < a.value_edge_list.len() implies same_edge(
        a.name_prefix,
        #[trigger] a.println(la).value_edge_list[i],
        b.name_prefix,
        b.println(lb).value_edge_list[i],
    ) by {
        assert(same_edge(a.name_prefix, a.value_edge_list[i], b.name_prefix, b.value_edge_list[i]));
    }
}

/// Naming the node of a target keeps two renderings alike, and gives the
/// node one name behind the two prefixes.
pub proof fn lemma_node_name_alike(a: WriterModel, b: WriterModel, target: ValueEdgeTarget)
    requires
        alike(a, b),
    ensures
        alike(a.node_name(target).0, b.node_name(target).0),
        same_name(a.name_prefix, a.node_name(target).1, b.name_prefix, b.node_name(target).1),
        a.node_name(target).0.name_prefix == a.name_prefix,
        b.node_name(target).0.name_prefix == b.name_prefix,
{
    let index = index_of_target(a.node_set, target, 0);
    let name = "node"@ + decimal(index as nat);
    assert(a.node_name(target).1 =~= a.name_prefix + name);
    assert(b.node_name(target).1 =~= b.name_prefix + name);
    assert forall|i: int| 0 <= i < a.value_edge_list.len() implies same_edge(
        a.name_prefix,
        #[trigger] a.node_name(target).0.value_edge_list[i],
        b.name_prefix,
        b.node_name(target).0.value_edge_list[i],
    ) by {
        assert(same_edge(a.name_prefix, a.value_edge_list[i], b.name_prefix, b.value_edge_list[i]));
    }
}

/// Writing the row of a field keeps two renderings alike.
pub proof fn lemma_print_field_alike(
    graph: HeapGraphModel,
    a: WriterModel,
    b: WriterModel,
    edge: Option<ValueEdge>,
    name: Option<Seq<char>>,
    sa: Seq<char>,
    sb: Seq<char>,
    index: usize,
)
    requires
        alike(a, b),
        same_name(a.name_prefix, sa, b.name_prefix, sb),
    ensures
        alike(graph.print_field(a, edge, name, sa, index), graph.print_field(b, edge, name, sb, index)),
        graph.print_field(a, edge, name, sa, index).name_prefix == a.name_prefix,
        graph.print_field(b, edge, name, sb, index).name_prefix == b.name_prefix,
{
    match (name, edge) {
        (Some(name), Some(edge)) => {
            let a1 = WriterModel {
                permissions: a.permissions.push((edge.permission, PlaceModel { node: sa, port: index })),
                ..a
            };
            let b1 = WriterModel {
                permissions: b.permissions.push((edge.permission, PlaceModel { node: sb, port: index })),
                ..b
            };
            assert(alike(a1, b1)) by {
                assert forall|i: int| 0 <= i < a1.permissions.len() implies (#[trigger] a1.permissions[i]).0
                    == b1.permissions[i].0 && a1.permissions[i].1.port == b1.permissions[i].1.port
                    && same_name(
                    a1.name_prefix,
                    a1.permissions[i].1.node,
                    b1.name_prefix,
                    b1.permissions[i].1.node,
                ) by {
                    if i < a.permissions.len() {
                        assert(a.permissions[i].0 == b.permissions[i].0);
                    }
                }
            }
            match edge.target {
                ValueEdgeTarget::Data(d) => {
                    let line = row_line(index, name + ": "@ + graph.data_str(d));
                    lemma_println_alike(a1, b1, line, line);
                },
                _ => {
                    let line = row_line(index, name);
                    lemma_println_alike(a1, b1, line, line);
                    let a2 = a1.println(line);
                    let b2 = b1.println(line);
                    lemma_node_name_alike(a2, b2, edge.target);
                    let (a3, na) = a2.node_name(edge.target);
                    let (b3, nb) = b2.node_name(edge.target);
                    let a4 = a2.push_value_edge(sa, index, edge);
                    let b4 = b2.push_value_edge(sb, index, edge);
                    assert forall|i: int| 0 <= i < a4.value_edge_list.len() implies same_edge(
                        a4.name_prefix,
                        #[trigger] a4.value_edge_list[i],
                        b4.name_prefix,
                        b4.value_edge_list[i],
                    ) by {
                        if i < a3.value_edge_list.len() {
                            assert(same_edge(
                                a3.name_prefix,
                                a3.value_edge_list[i],
                                b3.name_prefix,
                                b3.value_edge_list[i],
                            ));
                        }
                    }
                    assert forall|i: int| 0 <= i < a4.permissions.len() implies (
                    #[trigger] a4.permissions[i]).0 == b4.permissions[i].0 && a4.permissions[i].1.port
                        == b4.permissions[i].1.port && same_name(
                        a4.name_prefix,
                        a4.permissions[i].1.node,
                        b4.name_prefix,
                        b4.permissions[i].1.node,
                    ) by {
                        assert(a3.permissions[i].0 == b3.permissions[i].0);
                    }
                },
            }
        },
        (Some(name), None) => {
            lemma_println_alike(a, b, row_line(index, name), row_line(index, name));
        },
        _ => {},
    }
}

/// Writing the rows of fields keeps two renderings alike.
pub proof fn lemma_print_fields_alike(
    graph: HeapGraphModel,
    a: WriterModel,
    b: WriterModel,
    sa: Seq<char>,
    sb: Seq<char>,
    names: Seq<Option<Seq<char>>>,
    edges: Seq<Option<ValueEdge>>,
    index: usize,
    from: int,
)
    requires
        alike(a, b),
        same_name(a.name_prefix, sa, b.name_prefix, sb),
    ensures
        alike(
            graph.print_fields(a, sa, names, edges, index, from).0,
            graph.print_fields(b, sb, names, edges, index, from).0,
        ),
        graph.print_fields(a, sa, names, edges, index, from).1 == graph.print_fields(
            b,
            sb,
            names,
            edges,
            index,
            from,
        ).1,
        graph.print_fields(a, sa, names, edges, index, from).0.name_prefix == a.name_prefix,
        graph.print_fields(b, sb, names, edges, index, from).0.name_prefix == b.name_prefix,
    decreases edges.len() - from,
{
    if 0 <= from < edges.len() && from < names.len() {
        lemma_print_field_alike(graph, a, b, edges[from], names[from], sa, sb, index);
        lemma_print_fields_alike(
            graph,
            graph.print_field(a, edges[from], names[from], sa, index),
            graph.print_field(b, edges[from], names[from], sb, index),
            sa,
            sb,
            names,
            edges,
            next_port(index),
            from + 1,
        );
    }
}

/// Writing the rows of frames keeps two renderings alike.
pub proof fn lemma_print_frames_alike(
    graph: HeapGraphModel,
    db: &Db,
    a: WriterModel,
    b: WriterModel,
    sa: Seq<char>,
    sb: Seq<char>,
    index: usize,
    from: int,
)
    requires
        alike(a, b),
        same_name(a.name_prefix, sa, b.name_prefix, sb),
    ensures
        alike(graph.print_frames(a, db, sa, index, from), graph.print_frames(b, db, sb, index, from)),
        graph.print_frames(a, db, sa, index, from).name_prefix == a.name_prefix,
        graph.print_frames(b, db, sb, index, from).name_prefix == b.name_prefix,
    decreases graph.stack.len() - from,
{
    if 0 <= from < graph.stack.len() {
        let frame = graph.stack[from];
        let line = header_line(word_text(db, frame.function_name));
        lemma_println_alike(a, b, line, line);
        let a1 = a.println(line);
        let b1 = b.println(line);
        let names = frame_names(db, frame, a1.include_temporaries);
        lemma_print_fields_alike(graph, a1, b1, sa, sb, names, frame_edges(frame), index, 0);
        let (a2, ia) = graph.print_fields(a1, sa, names, frame_edges(frame), index, 0);
        let (b2, ib) = graph.print_fields(b1, sb, names, frame_edges(frame), index, 0);
        match frame.in_flight_value {
            Some(edge) => {
                lemma_print_field_alike(graph, a2, b2, Some(edge), Some("(in-flight)"@), sa, sb, ia);
                lemma_print_frames_alike(
                    graph,
                    db,
                    graph.print_field(a2, Some(edge), Some("(in-flight)"@), sa, ia),
                    graph.print_field(b2, Some(edge), Some("(in-flight)"@), sb, ia),
                    sa,
                    sb,
                    next_port(ia),
                    from + 1,
                );
            },
            None => {
                lemma_print_frames_alike(graph, db, a2, b2, sa, sb, ia, from + 1);
            },
        }
    }
}

/// Writing the cluster of the stack keeps two renderings alike.
pub proof fn lemma_print_stack_alike(graph: HeapGraphModel, db: &Db, a: WriterModel, b: WriterModel)
    requires
        alike(a, b),
    ensures
        alike(graph.print_stack(a, db), graph.print_stack(b, db)),
        graph.print_stack(a, db).name_prefix == a.name_prefix,
        graph.print_stack(b, db).name_prefix == b.name_prefix,
{
    let na = a.name_prefix + "stack"@;
    let nb = b.name_prefix + "stack"@;
    assert(same_name(a.name_prefix, na, b.name_prefix, nb));
    let la = "subgraph cluster_"@ + a.name_prefix + "stack {"@;
    let lb = "subgraph cluster_"@ + b.name_prefix + "stack {"@;
    lemma_println_alike(a, b, la, lb);
    let (a1, b1) = (a.indent(la), b.indent(lb));
    lemma_println_alike(a1, b1, "label=<<b>stack</b>>"@, "label=<<b>stack</b>>"@);
    let (a2, b2) = (a1.println("label=<<b>stack</b>>"@), b1.println("label=<<b>stack</b>>"@));
    lemma_println_alike(a2, b2, "rank=\"source\";"@, "rank=\"source\";"@);
    let (a3, b3) = (a2.println("rank=\"source\";"@), b2.println("rank=\"source\";"@));
    lemma_println_alike(a3, b3, na + "["@, nb + "["@);
    let (a4, b4) = (a3.indent(na + "["@), b3.indent(nb + "["@));
    lemma_println_alike(a4, b4, "shape=\"none\";"@, "shape=\"none\";"@);
    let (a5, b5) = (a4.println("shape=\"none\";"@), b4.println("shape=\"none\";"@));
    lemma_println_alike(a5, b5, "label=<"@, "label=<"@);
    let (a6, b6) = (a5.indent("label=<"@), b5.indent("label=<"@));
    lemma_println_alike(a6, b6, "<table border=\"0\">"@, "<table border=\"0\">"@);
    let (a7, b7) = (a6.println("<table border=\"0\">"@), b6.println("<table border=\"0\">"@));
    lemma_print_frames_alike(graph, db, a7, b7, na, nb, 0, 0);
    let (a8, b8) = (graph.print_frames(a7, db, na, 0, 0), graph.print_frames(b7, db, nb, 0, 0));
    lemma_println_alike(a8, b8, "</table>"@, "</table>"@);
    let (a9, b9) = (a8.println("</table>"@), b8.println("</table>"@));
    lemma_println_alike(a9, b9, ">;"@, ">;"@);
    let (a10, b10) = (a9.undent(">;"@), b9.undent(">;"@));
    lemma_println_alike(a10, b10, "];"@, "];"@);
    let (a11, b11) = (a10.undent("];"@), b10.undent("];"@));
    lemma_println_alike(a11, b11, "}"@, "}"@);
}

/// Writing a node keeps two renderings alike.
pub proof fn lemma_print_heap_node_alike(
    graph: HeapGraphModel,
    db: &Db,
    a: WriterModel,
    b: WriterModel,
    target: ValueEdgeTarget,
)
    requires
        alike(a, b),
    ensures
        alike(graph.print_heap_node(a, db, target), graph.print_heap_node(b, db, target)),
        graph.print_heap_node(a, db, target).name_prefix == a.name_prefix,
        graph.print_heap_node(b, db, target).name_prefix == b.name_prefix,
{
    lemma_node_name_alike(a, b, target);
    let (a1, na) = a.node_name(target);
    let (b1, nb) = b.node_name(target);
    lemma_println_alike(a1, b1, na + " ["@, nb + " ["@);
    let (a2, b2) = (a1.indent(na + " ["@), b1.indent(nb + " ["@));
    match target {
        ValueEdgeTarget::Object(o) => {
            if o.index < graph.objects.len() {
                let node = graph.objects[o.index as int];
                let open = "label = <<table border=\"0\">"@;
                lemma_println_alike(a2, b2, open, open);
                let (a3, b3) = (a2.indent(open), b2.indent(open));
                let line = header_line(node_title(db, node.kind));
                lemma_println_alike(a3, b3, line, line);
                let (a4, b4) = (a3.println(line), b3.println(line));
                lemma_print_fields_alike(graph, a4, b4, na, nb, node_field_names(db, node), node.fields, 0, 0);
                let a5 = graph.print_fields(a4, na, node_field_names(db, node), node.fields, 0, 0).0;
                let b5 = graph.print_fields(b4, nb, node_field_names(db, node), node.fields, 0, 0).0;
                lemma_println_alike(a5, b5, "</table>>"@, "</table>>"@);
                let (a6, b6) = (a5.undent("</table>>"@), b5.undent("</table>>"@));
                lemma_println_alike(a6, b6, "];"@, "];"@);
            } else {
                lemma_println_alike(a2, b2, "];"@, "];"@);
            }
        },
        ValueEdgeTarget::Class(c) => {
            let line = "label = <<b>"@ + node_title(db, crate::heap_graph::ObjectNodeKind::Instance(c))
                + "</b>>"@;
            lemma_println_alike(a2, b2, line, line);
            lemma_println_alike(a2.println(line), b2.println(line), "];"@, "];"@);
        },
        ValueEdgeTarget::Function(f) => {
            let line = "label = <<b>"@ + node_title(
                db,
                crate::heap_graph::ObjectNodeKind::Thunk(crate::model::ThunkCallee::Function(f)),
            ) + "</b>>"@;
            lemma_println_alike(a2, b2, line, line);
            lemma_println_alike(a2.println(line), b2.println(line), "];"@, "];"@);
        },
        ValueEdgeTarget::Data(d) => {
            let line = "label = "@ + crate::text::debug_quoted(graph.data_str(d));
            lemma_println_alike(a2, b2, line, line);
            lemma_println_alike(a2.println(line), b2.println(line), "];"@, "];"@);
        },
    }
}

/// Emptying the queue keeps two renderings alike.
pub proof fn lemma_print_heap_alike(graph: HeapGraphModel, db: &Db, a: WriterModel, b: WriterModel, budget: usize)
    requires
        alike(a, b),
    ensures
        alike(graph.print_heap(a, db, budget), graph.print_heap(b, db, budget)),
        graph.print_heap(a, db, budget).name_prefix == a.name_prefix,
        graph.print_heap(b, db, budget).name_prefix == b.name_prefix,
    decreases budget,
{
    if budget > 0 && a.node_queue.len() > 0 {
        let target = a.node_queue.last();
        let pa = WriterModel { node_queue: a.node_queue.drop_last(), ..a };
        let pb = WriterModel { node_queue: b.node_queue.drop_last(), ..b };
        assert(alike(pa, pb)) by {
            assert forall|i: int| 0 <= i < pa.value_edge_list.len() implies same_edge(
                pa.name_prefix,
                #[trigger] pa.value_edge_list[i],
                pb.name_prefix,
                pb.value_edge_list[i],
            ) by {
                assert(same_edge(a.name_prefix, a.value_edge_list[i], b.name_prefix, b.value_edge_list[i]));
            }
        }
        lemma_print_heap_node_alike(graph, db, pa, pb, target);
        lemma_print_heap_alike(
            graph,
            db,
            graph.print_heap_node(pa, db, target),
            graph.print_heap_node(pb, db, target),
            (budget - 1) as usize,
        );
    }
}

/// The two clusters of a paired graph agree but for the prefix.
///
/// Drawn with two prefixes, the stack and the heap of one snapshot number
/// the same nodes in the same order and gather the same edges: each edge
/// goes from the same port of the same node to the same node, with the same
/// permission, and the names of the nodes differ only in the prefix.
pub proof fn law_clusters_agree_but_for_the_prefix(
    graph: HeapGraphModel,
    db: &Db,
    include_temporaries: bool,
    before: Seq<char>,
    after: Seq<char>,
    indent: usize,
)
    ensures
        alike(
            graph.print_heap(
                graph.print_stack(WriterModel::start(include_temporaries, before, indent), db),
                db,
                graph.node_budget(db),
            ),
            graph.print_heap(
                graph.print_stack(WriterModel::start(include_temporaries, after, indent), db),
                db,
                graph.node_budget(db),
            ),
        ),
{
    let a = WriterModel::start(include_temporaries, before, indent);
    let b = WriterModel::start(include_temporaries, after, indent);
    assert(alike(a, b));
    lemma_print_stack_alike(graph, db, a, b);
    lemma_print_heap_alike(
        graph,
        db,
        graph.print_stack(a, db),
        graph.print_stack(b, db),
        graph.node_budget(db),
    );
}

} // verus!
