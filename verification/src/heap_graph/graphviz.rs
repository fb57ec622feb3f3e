//! Rendering a snapshot as a directed graph, in the textual format of
//! Graphviz.
//!
//! The stack is one table-shaped node with a row for each variable, and each
//! object is a table-shaped node with a row for each field.  A value is an
//! edge from its row to the node of what it holds, labelled with its
//! permission; the edge is dotted while the permission has a tenant.  Data are
//! shown in the row itself.  The nodes are found from the stack: whatever an
//! edge leads to for the first time is given the next number and queued, and
//! the queue is emptied node by node, so every node is emitted once.
use vstd::prelude::*;
use crate::db::Db;
use crate::function::Intrinsic;
use crate::heap_graph::{
    DataNode, HeapGraph, HeapGraphModel, LocalVariableEdge, ObjectNodeKind, ObjectNodeModel,
    PermissionNode, StackFrameNodeModel, ValueEdge, ValueEdgeTarget,
};
use crate::model::ThunkCallee;
use crate::text::{
    debug_quote, debug_quoted, decimal, elide, elided, escape_text, escaped, push_char, push_decimal,
    push_spaces, spaces,
};
use crate::word::Word;

verus! {

/// A row of a table of the output: the node and the port of the row.
#[derive(Debug)]
pub struct GraphvizPlace {
    /// Name of the node within the output.
    pub node: String,
    /// Port of the row.
    pub port: usize,
}

pub struct PlaceModel {
    pub node: Seq<char>,
    pub port: usize,
}

/// An edge of the output that is still to be written.
struct GraphvizValueEdge {
    source: GraphvizPlace,
    target: String,
    permission: PermissionNode,
}

pub struct EdgeModel {
    pub source: PlaceModel,
    pub target: Seq<char>,
    pub permission: PermissionNode,
}

/// The state of a rendering.
struct GraphvizWriter {
    /// If true, include temporary variables of the frames.
    include_temporaries: bool,
    /// Nodes that are numbered and not yet written.
    node_queue: Vec<ValueEdgeTarget>,
    /// All nodes that are numbered, in the order of their numbers.
    node_set: Vec<ValueEdgeTarget>,
    /// Edges from rows to nodes, gathered while the tables are written and
    /// written after them.
    value_edge_list: Vec<GraphvizValueEdge>,
    /// For each row that holds a value, the permission of the value and the
    /// row.
    permissions: Vec<(PermissionNode, GraphvizPlace)>,
    /// What has been written.
    output: String,
    /// Current indentation in spaces.
    indent: usize,
    /// What stands before every node name.
    name_prefix: String,
}

pub struct WriterModel {
    pub include_temporaries: bool,
    pub node_queue: Seq<ValueEdgeTarget>,
    pub node_set: Seq<ValueEdgeTarget>,
    pub value_edge_list: Seq<EdgeModel>,
    pub permissions: Seq<(PermissionNode, PlaceModel)>,
    pub output: Seq<char>,
    pub indent: usize,
    pub name_prefix: Seq<char>,
}

impl View for GraphvizPlace {
    type V = PlaceModel;

    open spec fn view(&self) -> PlaceModel {
        PlaceModel { node: self.node@, port: self.port }
    }
}

impl View for GraphvizValueEdge {
    type V = EdgeModel;

    closed spec fn view(&self) -> EdgeModel {
        EdgeModel { source: self.source@, target: self.target@, permission: self.permission }
    }
}

impl View for GraphvizWriter {
    type V = WriterModel;

    closed spec fn view(&self) -> WriterModel {
        WriterModel {
            include_temporaries: self.include_temporaries,
            node_queue: self.node_queue@,
            node_set: self.node_set@,
            value_edge_list: Seq::new(self.value_edge_list@.len(), |i: int| self.value_edge_list@[i]@),
            permissions: Seq::new(
                self.permissions@.len(),
                |i: int| (self.permissions@[i].0, self.permissions@[i].1@),
            ),
            output: self.output@,
            indent: self.indent,
            name_prefix: self.name_prefix@,
        }
    }
}

/// The model of a list of optional names.
pub open spec fn names_view(names: Seq<Option<String>>) -> Seq<Option<Seq<char>>> {
    Seq::new(
        names.len(),
        |i: int|
            match names[i] {
                Some(name) => Some(name@),
                None => None,
            },
    )
}

/// The port after `port`.
pub open spec fn next_port(port: usize) -> usize {
    if port < usize::MAX {
        (port + 1) as usize
    } else {
        port
    }
}

/// `text` between double quotes.
pub open spec fn quoted(text: Seq<char>) -> Seq<char> {
    (seq!['"'] + text).push('"')
}

/// The row of a table at port `port` that shows `text`.
pub open spec fn row_line(port: usize, text: Seq<char>) -> Seq<char> {
    "<tr><td port=\""@ + decimal(port as nat) + "\">"@ + text + "</td></tr>"@
}

/// The header row of a table, which shows `text`.
pub open spec fn header_line(text: Seq<char>) -> Seq<char> {
    "<tr><td border=\"1\">"@ + text + "</td></tr>"@
}

/// The line of an edge from the row `source` to the node `target`.
pub open spec fn edge_line(source: PlaceModel, target: Seq<char>, label: Seq<char>, dotted: bool) -> Seq<
    char,
> {
    quoted(source.node) + ":"@ + decimal(source.port as nat) + " -> "@ + quoted(target) + " [label="@
        + quoted(label) + ", style="@ + quoted(
        if dotted {
            "dotted"@
        } else {
            "solid"@
        },
    ) + "];"@
}

/// The name under which a temporary variable is shown.
pub open spec fn temporary_name(id: crate::bir::LocalVariable) -> Seq<char> {
    "LocalVariable("@ + decimal(id.index as nat) + ")"@
}

/// The name under which the variable of `edge` is shown, if it is shown: the
/// name the user gave it, or for a temporary its handle if temporaries are
/// included.
pub open spec fn variable_name(db: &Db, edge: LocalVariableEdge, include_temporaries: bool) -> Option<
    Seq<char>,
> {
    match edge.name {
        Some(word) => Some(word_text(db, word)),
        None => if include_temporaries {
            Some(temporary_name(edge.id))
        } else {
            None
        },
    }
}

/// The characters of `word`, or nothing if the program has no such word.
pub open spec fn word_text(db: &Db, word: Word) -> Seq<char> {
    if word.index < db.words@.len() {
        word.text(db)
    } else {
        Seq::empty()
    }
}

/// The names under which the variables of `frame` are shown.
pub open spec fn frame_names(db: &Db, frame: StackFrameNodeModel, include_temporaries: bool) -> Seq<
    Option<Seq<char>>,
> {
    Seq::new(
        frame.variables.len(),
        |i: int| variable_name(db, frame.variables[i], include_temporaries),
    )
}

/// The values of the variables of `frame`.
pub open spec fn frame_edges(frame: StackFrameNodeModel) -> Seq<Option<ValueEdge>> {
    Seq::new(frame.variables.len(), |i: int| frame.variables[i].value)
}

/// The title of the table of an object node.
pub open spec fn node_title(db: &Db, kind: ObjectNodeKind) -> Seq<char> {
    match kind {
        ObjectNodeKind::Instance(class) => if class.valid(db) {
            word_text(db, class.data(db).name)
        } else {
            Seq::empty()
        },
        ObjectNodeKind::Tuple => "tuple"@,
        ObjectNodeKind::Thunk(ThunkCallee::Function(f)) => if f.valid(db) {
            word_text(db, f.data(db).name) + "()"@
        } else {
            "()"@
        },
        ObjectNodeKind::Thunk(ThunkCallee::Intrinsic(Intrinsic::Print)) => "print()"@,
    }
}

/// The names under which the fields of `node` are shown: the names that the
/// class declares for an instance, and the positions otherwise.
pub open spec fn node_field_names(db: &Db, node: ObjectNodeModel) -> Seq<Option<Seq<char>>> {
    match node.kind {
        ObjectNodeKind::Instance(class) => if class.valid(db) {
            Seq::new(
                class.data(db).fields@.len(),
                |i: int| Some(word_text(db, class.data(db).fields@[i])),
            )
        } else {
            Seq::empty()
        },
        _ => Seq::new(node.fields.len(), |i: int| Some(decimal(i as nat))),
    }
}

/// The least index `i >= from` with `targets[i] == target`, or the length of
/// `targets` if there is none.
pub open spec fn index_of_target(targets: Seq<ValueEdgeTarget>, target: ValueEdgeTarget, from: int) -> int
    decreases targets.len() - from,
{
    if from < 0 || from >= targets.len() {
        targets.len() as int
    } else if targets[from] == target {
        from
    } else {
        index_of_target(targets, target, from + 1)
    }
}

impl WriterModel {
    /// The state in which a rendering starts.
    pub open spec fn start(include_temporaries: bool, name_prefix: Seq<char>, indent: usize) -> WriterModel {
        WriterModel {
            include_temporaries,
            node_queue: Seq::empty(),
            node_set: Seq::empty(),
            value_edge_list: Seq::empty(),
            permissions: Seq::empty(),
            output: Seq::empty(),
            indent,
            name_prefix,
        }
    }

    /// Writes `line`, indented, as a line of its own.
    pub open spec fn println(self, line: Seq<char>) -> WriterModel {
        WriterModel { output: (self.output + spaces(self.indent as nat) + line).push('\n'), ..self }
    }

    /// Writes `line` and indents what follows by two more spaces.
    pub open spec fn indent(self, line: Seq<char>) -> WriterModel {
        let w = self.println(line);
        WriterModel {
            indent: if w.indent <= usize::MAX - 2 {
                (w.indent + 2) as usize
            } else {
                w.indent
            },
            ..w
        }
    }

    /// Indents by two spaces less, and writes `line`.
    pub open spec fn undent(self, line: Seq<char>) -> WriterModel {
        WriterModel {
            indent: if self.indent >= 2 {
                (self.indent - 2) as usize
            } else {
                0
            },
            ..self
        }.println(line)
    }

    /// The name of the node of `target`.  A target met for the first time is
    /// given the next number and queued.
    pub open spec fn node_name(self, target: ValueEdgeTarget) -> (WriterModel, Seq<char>) {
        let index = index_of_target(self.node_set, target, 0);
        let w = if index < self.node_set.len() {
            self
        } else {
            WriterModel {
                node_set: self.node_set.push(target),
                node_queue: self.node_queue.push(target),
                ..self
            }
        };
        (w, self.name_prefix + "node"@ + decimal(index as nat))
    }

    /// Records an edge from the row `port` of `source` to the node of what
    /// `edge` holds.
    pub open spec fn push_value_edge(self, source: Seq<char>, port: usize, edge: ValueEdge) -> WriterModel {
        let (w, name) = self.node_name(edge.target);
        WriterModel {
            value_edge_list: w.value_edge_list.push(
                EdgeModel {
                    source: PlaceModel { node: source, port },
                    target: name,
                    permission: edge.permission,
                },
            ),
            ..w
        }
    }

    /// The rows recorded for `permission` among `self.permissions[from..]`,
    /// after `found`.
    pub open spec fn places_of(self, permission: PermissionNode, from: int, found: Seq<PlaceModel>) -> Seq<
        PlaceModel,
    >
        decreases self.permissions.len() - from,
    {
        if 0 <= from < self.permissions.len() {
            self.places_of(
                permission,
                from + 1,
                if self.permissions[from].0 == permission {
                    found.push(self.permissions[from].1)
                } else {
                    found
                },
            )
        } else {
            found
        }
    }
}

impl HeapGraphModel {
    /// The text that shows the data of `d`: escaped, and elided if it is
    /// longer than 40 characters.
    pub open spec fn data_str(self, d: DataNode) -> Seq<char> {
        if d.index < self.datas.len() {
            elided(escaped(self.datas[d.index as int].debug))
        } else {
            Seq::empty()
        }
    }

    /// Writes the row of a field or variable, if it is shown.
    ///
    /// A row without `name` is not shown.  A row that holds data shows the
    /// data after the name.  A row that holds anything else gets an edge to
    /// the node of what it holds.  An uninitialized row shows its name alone.
    pub open spec fn print_field(
        self,
        w: WriterModel,
        edge: Option<ValueEdge>,
        name: Option<Seq<char>>,
        source: Seq<char>,
        index: usize,
    ) -> WriterModel {
        match name {
            None => w,
            Some(name) => match edge {
                None => w.println(row_line(index, name)),
                Some(edge) => {
                    let w = WriterModel {
                        permissions: w.permissions.push(
                            (edge.permission, PlaceModel { node: source, port: index }),
                        ),
                        ..w
                    };
                    match edge.target {
                        ValueEdgeTarget::Data(d) => w.println(
                            row_line(index, name + ": "@ + self.data_str(d)),
                        ),
                        _ => w.println(row_line(index, name)).push_value_edge(source, index, edge),
                    }
                },
            },
        }
    }

    /// Writes the rows of `edges[from..]` under `names[from..]`, with ports
    /// counted from `index`; returns the port after the last.  Every edge
    /// takes a port, shown or not.
    pub open spec fn print_fields(
        self,
        w: WriterModel,
        source: Seq<char>,
        names: Seq<Option<Seq<char>>>,
        edges: Seq<Option<ValueEdge>>,
        index: usize,
        from: int,
    ) -> (WriterModel, usize)
        decreases edges.len() - from,
    {
        if 0 <= from < edges.len() && from < names.len() {
            self.print_fields(
                self.print_field(w, edges[from], names[from], source, index),
                source,
                names,
                edges,
                next_port(index),
                from + 1,
            )
        } else {
            (w, index)
        }
    }

    /// Writes the rows of the frames `from..`: for each frame a header with
    /// the name of its function, then its variables, then its value in
    /// flight.
    pub open spec fn print_frames(self, w: WriterModel, db: &Db, source: Seq<char>, index: usize, from: int) -> WriterModel
        decreases self.stack.len() - from,
    {
        if 0 <= from < self.stack.len() {
            let frame = self.stack[from];
            let w = w.println(header_line(word_text(db, frame.function_name)));
            let (w, index) = self.print_fields(
                w,
                source,
                frame_names(db, frame, w.include_temporaries),
                frame_edges(frame),
                index,
                0,
            );
            match frame.in_flight_value {
                Some(edge) => self.print_frames(
                    self.print_field(w, Some(edge), Some("(in-flight)"@), source, index),
                    db,
                    source,
                    next_port(index),
                    from + 1,
                ),
                None => self.print_frames(w, db, source, index, from + 1),
            }
        } else {
            w
        }
    }

    /// Writes the cluster of the stack.
    pub open spec fn print_stack(self, w: WriterModel, db: &Db) -> WriterModel {
        let name = w.name_prefix + "stack"@;
        let w = w.indent("subgraph cluster_"@ + w.name_prefix + "stack {"@);
        let w = w.println("label=<<b>stack</b>>"@);
        let w = w.println("rank=\"source\";"@);
        let w = w.indent(name + "["@);
        let w = w.println("shape=\"none\";"@);
        let w = w.indent("label=<"@);
        let w = w.println("<table border=\"0\">"@);
        let w = self.print_frames(w, db, name, 0, 0);
        let w = w.println("</table>"@);
        let w = w.undent(">;"@);
        let w = w.undent("];"@);
        w.undent("}"@)
    }

    /// Writes the node of `target`.
    pub open spec fn print_heap_node(self, w: WriterModel, db: &Db, target: ValueEdgeTarget) -> WriterModel {
        let (w, name) = w.node_name(target);
        let w = w.indent(name + " ["@);
        let w = match target {
            ValueEdgeTarget::Object(o) => if o.index < self.objects.len() {
                let node = self.objects[o.index as int];
                let w = w.indent("label = <<table border=\"0\">"@);
                let w = w.println(header_line(node_title(db, node.kind)));
                let w = self.print_fields(w, name, node_field_names(db, node), node.fields, 0, 0).0;
                w.undent("</table>>"@)
            } else {
                w
            },
            ValueEdgeTarget::Class(c) => w.println(
                "label = <<b>"@ + node_title(db, ObjectNodeKind::Instance(c)) + "</b>>"@,
            ),
            ValueEdgeTarget::Function(f) => w.println(
                "label = <<b>"@ + node_title(db, ObjectNodeKind::Thunk(ThunkCallee::Function(f)))
                    + "</b>>"@,
            ),
            ValueEdgeTarget::Data(d) => w.println("label = "@ + debug_quoted(self.data_str(d))),
        };
        w.undent("];"@)
    }

    /// Writes the nodes in the queue, last queued first, and those that
    /// writing them queues, as long as `budget` lasts.
    pub open spec fn print_heap(self, w: WriterModel, db: &Db, budget: usize) -> WriterModel
        decreases budget,
    {
        if budget > 0 && w.node_queue.len() > 0 {
            let target = w.node_queue.last();
            self.print_heap(
                self.print_heap_node(
                    WriterModel { node_queue: w.node_queue.drop_last(), ..w },
                    db,
                    target,
                ),
                db,
                (budget - 1) as usize,
            )
        } else {
            w
        }
    }

    /// Writes the lines of `edges[from..]`.
    pub open spec fn print_edges(self, w: WriterModel, edges: Seq<EdgeModel>, from: int) -> WriterModel
        decreases edges.len() - from,
    {
        if 0 <= from < edges.len() {
            let edge = edges[from];
            let line = if edge.permission.index < self.permissions.len() {
                let data = self.permissions[edge.permission.index as int];
                edge_line(edge.source, edge.target, data.label.text(), data.tenant is Some)
            } else {
                edge_line(edge.source, edge.target, Seq::empty(), false)
            };
            self.print_edges(w.println(line), edges, from + 1)
        } else {
            w
        }
    }

    /// How many nodes a rendering writes at most: one for each object node,
    /// class and function.
    pub open spec fn node_budget(self, db: &Db) -> usize {
        let n = self.objects.len() + db.classes@.len() + db.functions@.len();
        if n <= usize::MAX {
            n as usize
        } else {
            usize::MAX
        }
    }

    /// Writes the stack, the nodes reachable from it and the edges.
    pub open spec fn stack_and_heap(self, w: WriterModel, db: &Db) -> WriterModel {
        let w = self.print_stack(w, db);
        let w = self.print_heap(w, db, self.node_budget(db));
        self.print_edges(WriterModel { value_edge_list: Seq::empty(), ..w }, w.value_edge_list, 0)
    }

    /// The text of the stack and the heap of the snapshot, drawn with
    /// `name_prefix` before every node name and indented by `indent` spaces.
    pub open spec fn cluster_text(self, db: &Db, include_temporaries: bool, name_prefix: Seq<char>, indent: usize) -> Seq<
        char,
    > {
        self.stack_and_heap(WriterModel::start(include_temporaries, name_prefix, indent), db).output
    }

    /// The text that opens a graph.
    pub open spec fn graph_header() -> Seq<char> {
        "digraph {\n  node[shape = \"note\"];\n  rankdir = \"LR\";\n"@
    }

    /// The text of the graph of the snapshot by itself.
    pub open spec fn alone_text(self, db: &Db, include_temporaries: bool) -> Seq<char> {
        Self::graph_header() + self.cluster_text(db, include_temporaries, ""@, 2) + "}\n"@
    }

    /// The text of the graph that shows the snapshot as the state before and
    /// `end` as the state after: one cluster for each, the later state first.
    pub open spec fn paired_text(self, db: &Db, include_temporaries: bool, end: HeapGraphModel) -> Seq<
        char,
    > {
        Self::graph_header() + "  subgraph cluster_after {\n    label=<<b>after</b>>\n"@
            + end.cluster_text(db, include_temporaries, "after"@, 4)
            + "  }\n  subgraph cluster_before {\n    label=<<b>before</b>>\n"@ + self.cluster_text(
            db,
            include_temporaries,
            "before"@,
            4,
        ) + "  }\n}\n"@
    }

    /// The rows that hold a value with `permission`; if there is none, those
    /// of its lessor, and so on up the chain of lessors.
    pub open spec fn find_lessor_place(self, w: WriterModel, permission: PermissionNode) -> Seq<
        PlaceModel,
    >
        decreases permission.index,
    {
        let places = w.places_of(permission, 0, Seq::empty());
        if places.len() > 0 {
            places
        } else if permission.index < self.permissions.len() {
            match self.permissions[permission.index as int].lessor {
                Some(lessor) => if lessor.index < permission.index {
                    self.find_lessor_place(w, lessor)
                } else {
                    Seq::empty()
                },
                None => Seq::empty(),
            }
        } else {
            Seq::empty()
        }
    }
}

/// Appends `text` between double quotes to `out`.
fn push_quoted(out: &mut String, text: &str)
    ensures
        final(out)@ == old(out)@ + quoted(text@),
{
    push_char(out, '"');
    out.append(text);
    push_char(out, '"');
    assert(out@ =~= old(out)@ + quoted(text@));
}

/// The row of a table at port `port` that shows `text`.
fn row(port: usize, text: &str) -> (r: String)
    ensures
        r@ == row_line(port, text@),
{
    let mut out = String::from_str("<tr><td port=\"");
    push_decimal(&mut out, port);
    out.append("\">");
    out.append(text);
    out.append("</td></tr>");
    out
}

/// The header row of a table, which shows `text`.
fn header(text: &str) -> (r: String)
    ensures
        r@ == header_line(text@),
{
    let mut out = String::from_str("<tr><td border=\"1\">");
    out.append(text);
    out.append("</td></tr>");
    out
}

/// The line of an edge from the row `source` to the node `target`.
fn edge_text(source: &GraphvizPlace, target: &str, label: &str, dotted: bool) -> (r: String)
    ensures
        r@ == edge_line(source@, target@, label@, dotted),
{
    let mut out = String::new();
    push_quoted(&mut out, source.node.as_str());
    assert(out@ =~= quoted(source.node@));
    out.append(":");
    push_decimal(&mut out, source.port);
    out.append(" -> ");
    push_quoted(&mut out, target);
    out.append(" [label=");
    push_quoted(&mut out, label);
    out.append(", style=");
    if dotted {
        push_quoted(&mut out, "dotted");
    } else {
        push_quoted(&mut out, "solid");
    }
    out.append("];");
    out
}

/// The characters of `word`, or nothing if the program has no such word.
fn word_string(db: &Db, word: Word) -> (r: String)
    ensures
        r@ == word_text(db, word),
{
    if word.index < db.words.len() {
        db.words[word.index].clone()
    } else {
        String::new()
    }
}

/// The title of the table of an object node.
fn title(db: &Db, kind: ObjectNodeKind) -> (r: String)
    ensures
        r@ == node_title(db, kind),
{
    match kind {
        ObjectNodeKind::Instance(class) => if class.index < db.classes.len() {
            word_string(db, db.classes[class.index].name)
        } else {
            String::new()
        },
        ObjectNodeKind::Tuple => String::from_str("tuple"),
        ObjectNodeKind::Thunk(ThunkCallee::Function(f)) => if f.index < db.functions.len() {
            let mut out = word_string(db, db.functions[f.index].name);
            out.append("()");
            out
        } else {
            String::from_str("()")
        },
        ObjectNodeKind::Thunk(ThunkCallee::Intrinsic(Intrinsic::Print)) => String::from_str("print()"),
    }
}

impl GraphvizWriter {
    /// The state in which a rendering starts.
    fn new(include_temporaries: bool, name_prefix: &str, indent: usize) -> (w: GraphvizWriter)
        ensures
            w@ == WriterModel::start(include_temporaries, name_prefix@, indent),
    {
        let w = GraphvizWriter {
            include_temporaries,
            node_queue: Vec::new(),
            node_set: Vec::new(),
            value_edge_list: Vec::new(),
            permissions: Vec::new(),
            output: String::new(),
            indent,
            name_prefix: String::from_str(name_prefix),
        };
        assert(w@.value_edge_list =~= Seq::empty());
        assert(w@.permissions =~= Seq::empty());
        w
    }

    /// Writes `line`, indented, as a line of its own.
    fn println(&mut self, line: &str)
        ensures
            final(self)@ == old(self)@.println(line@),
    {
        push_spaces(&mut self.output, self.indent);
        self.output.append(line);
        push_char(&mut self.output, '\n');
    }

    /// Writes `line` and indents what follows by two more spaces.
    fn indent(&mut self, line: &str)
        ensures
            final(self)@ == old(self)@.indent(line@),
    {
        self.println(line);
        if self.indent <= usize::MAX - 2 {
            self.indent += 2;
        }
    }

    /// Indents by two spaces less, and writes `line`.
    fn undent(&mut self, line: &str)
        ensures
            final(self)@ == old(self)@.undent(line@),
    {
        if self.indent >= 2 {
            self.indent -= 2;
        } else {
            self.indent = 0;
        }
        self.println(line);
    }

    /// The name of the node of `target`.
    fn node_name(&mut self, target: ValueEdgeTarget) -> (name: String)
        ensures
            (final(self)@, name@) == old(self)@.node_name(target),
    {
        let mut index: usize = 0;
        while index < self.node_set.len()
            invariant
                index <= self.node_set@.len(),
                *self == *old(self),
                index_of_target(self.node_set@, target, 0) == index_of_target(
                    self.node_set@,
                    target,
                    index as int,
                ),
            ensures
                index <= self.node_set@.len(),
                *self == *old(self),
                index_of_target(self.node_set@, target, 0) == index,
            decreases self.node_set@.len() - index,
        {
            if self.node_set[index] == target {
                assert(index_of_target(self.node_set@, target, index as int) == index);
                break ;
            }
            index += 1;
        }
        let mut name = self.name_prefix.clone();
        name.append("node");
        push_decimal(&mut name, index);
        if index == self.node_set.len() {
            self.node_set.push(target);
            self.node_queue.push(target);
            assert(self@.value_edge_list =~= old(self)@.value_edge_list);
            assert(self@.permissions =~= old(self)@.permissions);
        }
        name
    }

    /// Records an edge from the row `port` of `source` to the node of what
    /// `edge` holds.
    fn push_value_edge(&mut self, source: &str, port: usize, edge: ValueEdge)
        ensures
            final(self)@ == old(self)@.push_value_edge(source@, port, edge),
    {
        let name = self.node_name(edge.target);
        let ghost before = self@;
        self.value_edge_list.push(
            GraphvizValueEdge {
                source: GraphvizPlace { node: String::from_str(source), port },
                target: name,
                permission: edge.permission,
            },
        );
        assert(self@.permissions =~= before.permissions);
        assert(self@.value_edge_list =~= before.value_edge_list.push(
            EdgeModel {
                source: PlaceModel { node: source@, port },
                target: name@,
                permission: edge.permission,
            },
        ));
    }

    /// Records that the row `port` of `source` holds a value with
    /// `permission`.
    fn record_place(&mut self, permission: PermissionNode, source: &str, port: usize)
        ensures
            final(self)@ == (WriterModel {
                permissions: old(self)@.permissions.push(
                    (permission, PlaceModel { node: source@, port }),
                ),
                ..old(self)@
            }),
    {
        self.permissions.push((permission, GraphvizPlace { node: String::from_str(source), port }));
        assert(self@.value_edge_list =~= old(self)@.value_edge_list);
        assert(self@.permissions =~= old(self)@.permissions.push(
            (permission, PlaceModel { node: source@, port }),
        ));
    }

    /// The rows recorded for `permission`.
    fn places_of(&self, permission: PermissionNode) -> (r: Vec<GraphvizPlace>)
        ensures
            Seq::new(r@.len(), |i: int| r@[i]@) == self@.places_of(permission, 0, Seq::empty()),
    {
        let mut r: Vec<GraphvizPlace> = Vec::new();
        let mut i: usize = 0;
        assert(Seq::new(r@.len(), |j: int| r@[j]@) =~= Seq::<PlaceModel>::empty());
        while i < self.permissions.len()
            invariant
                i <= self.permissions@.len(),
                self@.places_of(permission, i as int, Seq::new(r@.len(), |j: int| r@[j]@))
                    == self@.places_of(permission, 0, Seq::empty()),
            decreases self.permissions@.len() - i,
        {
            if self.permissions[i].0 == permission {
                let ghost before = Seq::new(r@.len(), |j: int| r@[j]@);
                let place = GraphvizPlace {
                    node: self.permissions[i].1.node.clone(),
                    port: self.permissions[i].1.port,
                };
                r.push(place);
                assert(Seq::new(r@.len(), |j: int| r@[j]@) =~= before.push(self@.permissions[i as int].1));
            }
            i += 1;
        }
        r
    }
}

impl HeapGraph {
    /// The text that shows the data of `d`.
    fn data_str(&self, d: DataNode) -> (r: String)
        ensures
            r@ == self@.data_str(d),
    {
        if d.index < self.datas.len() {
            elide(escape_text(self.datas[d.index].debug.as_str()))
        } else {
            String::new()
        }
    }

    /// Writes the row of a field or variable, if it is shown.
    fn print_field(
        &self,
        w: &mut GraphvizWriter,
        edge: Option<ValueEdge>,
        name: &Option<String>,
        source: &str,
        index: usize,
    )
        ensures
            final(w)@ == self@.print_field(
                old(w)@,
                edge,
                match *name {
                    Some(n) => Some(n@),
                    None => None,
                },
                source@,
                index,
            ),
    {
        match name {
            None => {},
            Some(name) => match edge {
                None => {
                    w.println(row(index, name.as_str()).as_str());
                },
                Some(edge) => {
                    w.record_place(edge.permission, source, index);
                    match edge.target {
                        ValueEdgeTarget::Data(d) => {
                            let mut text = name.clone();
                            text.append(": ");
                            text.append(self.data_str(d).as_str());
                            w.println(row(index, text.as_str()).as_str());
                        },
                        _ => {
                            w.println(row(index, name.as_str()).as_str());
                            w.push_value_edge(source, index, edge);
                        },
                    }
                },
            },
        }
    }

    /// Writes the rows of `edges` under `names`, with ports counted from
    /// `index`; returns the port after the last.
    fn print_fields(
        &self,
        w: &mut GraphvizWriter,
        source: &str,
        names: &Vec<Option<String>>,
        edges: &Vec<Option<ValueEdge>>,
        index: usize,
    ) -> (next: usize)
        ensures
            (final(w)@, next) == self@.print_fields(
                old(w)@,
                source@,
                names_view(names@),
                edges@,
                index,
                0,
            ),
    {
        let mut port = index;
        let mut i: usize = 0;
        while i < edges.len() && i < names.len()
            invariant
                i <= edges@.len(),
                self@.print_fields(w@, source@, names_view(names@), edges@, port, i as int)
                    == self@.print_fields(old(w)@, source@, names_view(names@), edges@, index, 0),
            decreases edges@.len() - i,
        {
            self.print_field(w, edges[i], &names[i], source, port);
            if port < usize::MAX {
                port += 1;
            }
            i += 1;
        }
        port
    }

    /// The names under which the variables of frame `f` are shown.
    fn frame_names(&self, db: &Db, f: usize, include_temporaries: bool) -> (r: Vec<Option<String>>)
        requires
            f < self.stack@.len(),
        ensures
            names_view(r@) == frame_names(db, self@.stack[f as int], include_temporaries),
    {
        let frame = &self.stack[f];
        let mut r: Vec<Option<String>> = Vec::new();
        let mut i: usize = 0;
        while i < frame.variables.len()
            invariant
                i <= frame.variables@.len(),
                frame@ == self@.stack[f as int],
                r@.len() == i,
                forall|j: int|
                    0 <= j < i ==> (match #[trigger] r@[j] {
                        Some(name) => Some(name@),
                        None => None,
                    }) == variable_name(db, frame.variables@[j], include_temporaries),
            decreases frame.variables@.len() - i,
        {
            let edge = &frame.variables[i];
            let name = match edge.name {
                Some(word) => Some(word_string(db, word)),
                None => if include_temporaries {
                    let mut text = String::from_str("LocalVariable(");
                    push_decimal(&mut text, edge.id.index);
                    text.append(")");
                    Some(text)
                } else {
                    None
                },
            };
            r.push(name);
            i += 1;
        }
        assert(names_view(r@) =~= frame_names(db, self@.stack[f as int], include_temporaries));
        r
    }

    /// The values of the variables of frame `f`.
    fn frame_edges(&self, f: usize) -> (r: Vec<Option<ValueEdge>>)
        requires
            f < self.stack@.len(),
        ensures
            r@ == frame_edges(self@.stack[f as int]),
    {
        let frame = &self.stack[f];
        let mut r: Vec<Option<ValueEdge>> = Vec::new();
        let mut i: usize = 0;
        while i < frame.variables.len()
            invariant
                i <= frame.variables@.len(),
                frame@ == self@.stack[f as int],
                r@.len() == i,
                forall|j: int| 0 <= j < i ==> #[trigger] r@[j] == frame.variables@[j].value,
            decreases frame.variables@.len() - i,
        {
            r.push(frame.variables[i].value);
            i += 1;
        }
        assert(r@ =~= frame_edges(self@.stack[f as int]));
        r
    }

    /// The names under which the fields of object node `o` are shown.
    fn node_field_names(&self, db: &Db, o: usize) -> (r: Vec<Option<String>>)
        requires
            o < self.objects@.len(),
        ensures
            names_view(r@) == node_field_names(db, self@.objects[o as int]),
    {
        let node = &self.objects[o];
        let mut r: Vec<Option<String>> = Vec::new();
        match node.kind {
            ObjectNodeKind::Instance(class) => {
                if class.index < db.classes.len() {
                    let fields = &db.classes[class.index].fields;
                    let mut i: usize = 0;
                    while i < fields.len()
                        invariant
                            i <= fields@.len(),
                            r@.len() == i,
                            forall|j: int|
                                0 <= j < i ==> (match #[trigger] r@[j] {
                                    Some(name) => Some(name@),
                                    None => None,
                                }) == Some(word_text(db, fields@[j])),
                        decreases fields@.len() - i,
                    {
                        r.push(Some(word_string(db, fields[i])));
                        i += 1;
                    }
                }
            },
            _ => {
                let mut i: usize = 0;
                while i < node.fields.len()
                    invariant
                        i <= node.fields@.len(),
                        r@.len() == i,
                        forall|j: int|
                            0 <= j < i ==> (match #[trigger] r@[j] {
                                Some(name) => Some(name@),
                                None => None,
                            }) == Some(decimal(j as nat)),
                    decreases node.fields@.len() - i,
                {
                    let mut text = String::new();
                    push_decimal(&mut text, i);
                    assert(text@ =~= decimal(i as nat));
                    r.push(Some(text));
                    i += 1;
                }
            },
        }
        assert(names_view(r@) =~= node_field_names(db, self@.objects[o as int]));
        r
    }

    /// Writes the cluster of the stack.
    fn print_stack(&self, w: &mut GraphvizWriter, db: &Db)
        ensures
            final(w)@ == self@.print_stack(old(w)@, db),
    {
        let mut stack_node_name = w.name_prefix.clone();
        stack_node_name.append("stack");
        let mut line = String::from_str("subgraph cluster_");
        line.append(w.name_prefix.as_str());
        line.append("stack {");
        w.indent(line.as_str());
        w.println("label=<<b>stack</b>>");
        w.println("rank=\"source\";");
        let mut line = stack_node_name.clone();
        line.append("[");
        w.indent(line.as_str());
        w.println("shape=\"none\";");
        w.indent("label=<");
        w.println("<table border=\"0\">");
        let ghost start = w@;
        let mut field_index: usize = 0;
        let mut f: usize = 0;
        while f < self.stack.len()
            invariant
                f <= self.stack@.len(),
                self@.print_frames(w@, db, stack_node_name@, field_index, f as int)
                    == self@.print_frames(start, db, stack_node_name@, 0, 0),
            decreases self.stack@.len() - f,
        {
            let frame = &self.stack[f];
            w.println(header(word_string(db, frame.function_name).as_str()).as_str());
            let names = self.frame_names(db, f, w.include_temporaries);
            let edges = self.frame_edges(f);
            field_index = self.print_fields(w, stack_node_name.as_str(), &names, &edges, field_index);
            match frame.in_flight_value {
                Some(edge) => {
                    let name = Some(String::from_str("(in-flight)"));
                    self.print_field(w, Some(edge), &name, stack_node_name.as_str(), field_index);
                    if field_index < usize::MAX {
                        field_index += 1;
                    }
                },
                None => {},
            }
            f += 1;
        }
        w.println("</table>");
        w.undent(">;");
        w.undent("];");
        w.undent("}");
    }

    /// Writes the node of `target`.
    fn print_heap_node(&self, w: &mut GraphvizWriter, db: &Db, target: ValueEdgeTarget)
        ensures
            final(w)@ == self@.print_heap_node(old(w)@, db, target),
    {
        let name = w.node_name(target);
        let mut line = name.clone();
        line.append(" [");
        w.indent(line.as_str());
        match target {
            ValueEdgeTarget::Object(o) => {
                if o.index < self.objects.len() {
                    let node = &self.objects[o.index];
                    w.indent("label = <<table border=\"0\">");
                    w.println(header(title(db, node.kind).as_str()).as_str());
                    let names = self.node_field_names(db, o.index);
                    self.print_fields(w, name.as_str(), &names, &node.fields, 0);
                    w.undent("</table>>");
                }
            },
            ValueEdgeTarget::Class(c) => {
                let mut line = String::from_str("label = <<b>");
                line.append(title(db, ObjectNodeKind::Instance(c)).as_str());
                line.append("</b>>");
                w.println(line.as_str());
            },
            ValueEdgeTarget::Function(f) => {
                let mut line = String::from_str("label = <<b>");
                line.append(title(db, ObjectNodeKind::Thunk(ThunkCallee::Function(f))).as_str());
                line.append("</b>>");
                w.println(line.as_str());
            },
            ValueEdgeTarget::Data(d) => {
                let mut line = String::from_str("label = ");
                line.append(debug_quote(self.data_str(d).as_str()).as_str());
                w.println(line.as_str());
            },
        }
        w.undent("];");
    }

    /// Writes the nodes in the queue and those that writing them queues, as
    /// long as `budget` lasts.
    fn print_heap(&self, w: &mut GraphvizWriter, db: &Db, budget: usize)
        ensures
            final(w)@ == self@.print_heap(old(w)@, db, budget),
    {
        let mut left = budget;
        while left > 0 && w.node_queue.len() > 0
            invariant
                self@.print_heap(w@, db, left) == self@.print_heap(old(w)@, db, budget),
            decreases left,
        {
            let ghost before = w@;
            let target = w.node_queue.pop().unwrap();
            assert(w@.value_edge_list =~= before.value_edge_list);
            assert(w@.permissions =~= before.permissions);
            assert(w@ == (WriterModel { node_queue: before.node_queue.drop_last(), ..before }));
            self.print_heap_node(w, db, target);
            left -= 1;
        }
    }

    /// How many nodes a rendering writes at most.
    fn node_budget(&self, db: &Db) -> (n: usize)
        ensures
            n == self@.node_budget(db),
    {
        let n = self.objects.len();
        let n = match n.checked_add(db.classes.len()) {
            Some(n) => n,
            None => {
                return usize::MAX;
            },
        };
        match n.checked_add(db.functions.len()) {
            Some(n) => n,
            None => usize::MAX,
        }
    }

    /// Writes the stack, the nodes reachable from it and the edges.
    fn stack_and_heap(&self, w: &mut GraphvizWriter, db: &Db)
        ensures
            final(w)@ == self@.stack_and_heap(old(w)@, db),
    {
        self.print_stack(w, db);
        self.print_heap(w, db, self.node_budget(db));
        let ghost before = w@;
        let mut value_edge_list: Vec<GraphvizValueEdge> = Vec::new();
        std::mem::swap(&mut value_edge_list, &mut w.value_edge_list);
        let ghost edges = before.value_edge_list;
        assert(Seq::new(value_edge_list@.len(), |i: int| value_edge_list@[i]@) =~= edges);
        assert(w@.permissions =~= before.permissions);
        assert(w@.value_edge_list =~= Seq::empty());
        assert(w@ == (WriterModel { value_edge_list: Seq::empty(), ..before }));
        let mut i: usize = 0;
        while i < value_edge_list.len()
            invariant
                i <= value_edge_list@.len(),
                edges.len() == value_edge_list@.len(),
                forall|j: int| 0 <= j < edges.len() ==> #[trigger] edges[j] == value_edge_list@[j]@,
                self@.print_edges(w@, edges, i as int) == self@.print_edges(
                    WriterModel { value_edge_list: Seq::empty(), ..before },
                    edges,
                    0,
                ),
            decreases value_edge_list@.len() - i,
        {
            let value_edge = &value_edge_list[i];
            let line = if value_edge.permission.index < self.permissions.len() {
                let data = &self.permissions[value_edge.permission.index];
                edge_text(
                    &value_edge.source,
                    value_edge.target.as_str(),
                    data.label.as_str(),
                    data.tenant.is_some(),
                )
            } else {
                edge_text(&value_edge.source, value_edge.target.as_str(), "", false)
            };
            proof {
                reveal_strlit("");
                assert(""@ =~= Seq::<char>::empty());
            }
            w.println(line.as_str());
            i += 1;
        }
    }

    /// The text of the stack and the heap of the snapshot, drawn with
    /// `name_prefix` before every node name and indented by `indent` spaces.
    fn cluster_text(&self, db: &Db, include_temporaries: bool, name_prefix: &str, indent: usize) -> (r:
        String)
        ensures
            r@ == self@.cluster_text(db, include_temporaries, name_prefix@, indent),
    {
        let mut w = GraphvizWriter::new(include_temporaries, name_prefix, indent);
        self.stack_and_heap(&mut w, db);
        w.output
    }

    /// Plots this heap graph by itself.
    pub fn graphviz_alone(&self, db: &Db, include_temporaries: bool) -> (r: String)
        ensures
            r@ == self@.alone_text(db, include_temporaries),
    {
        let mut out = String::from_str("digraph {\n  node[shape = \"note\"];\n  rankdir = \"LR\";\n");
        out.append(self.cluster_text(db, include_temporaries, "", 2).as_str());
        out.append("}\n");
        out
    }

    /// Plots this heap graph as the state at the start of a breakpoint, with
    /// `heap_graph_end` as the state at its end.
    pub fn graphviz_paired(&self, db: &Db, include_temporaries: bool, heap_graph_end: &HeapGraph) -> (r:
        String)
        ensures
            r@ == self@.paired_text(db, include_temporaries, heap_graph_end@),
    {
        let mut out = String::from_str("digraph {\n  node[shape = \"note\"];\n  rankdir = \"LR\";\n");
        out.append("  subgraph cluster_after {\n    label=<<b>after</b>>\n");
        out.append(heap_graph_end.cluster_text(db, include_temporaries, "after", 4).as_str());
        out.append("  }\n  subgraph cluster_before {\n    label=<<b>before</b>>\n");
        out.append(self.cluster_text(db, include_temporaries, "before", 4).as_str());
        out.append("  }\n}\n");
        out
    }

    /// The rows that hold a value with `permission`; if there is none, those
    /// of its lessor, and so on up the chain of lessors.
    fn find_lessor_place(&self, w: &GraphvizWriter, permission: PermissionNode) -> (r: Vec<
        GraphvizPlace,
    >)
        ensures
            Seq::new(r@.len(), |i: int| r@[i]@) == self@.find_lessor_place(w@, permission),
        decreases permission.index,
    {
        let places = w.places_of(permission);
        if places.len() > 0 {
            return places;
        }
        if permission.index < self.permissions.len() {
            match self.permissions[permission.index].lessor {
                Some(lessor) => {
                    if lessor.index < permission.index {
                        return self.find_lessor_place(w, lessor);
                    }
                },
                None => {},
            }
        }
        let r: Vec<GraphvizPlace> = Vec::new();
        assert(Seq::new(r@.len(), |i: int| r@[i]@) =~= Seq::<PlaceModel>::empty());
        r
    }
}

/// A temporary is shown if and only if temporaries are included.
///
/// For a variable without a name, nothing is written unless temporaries are
/// included, and a row is written if they are.  A variable with a name gets
/// its row either way.
pub proof fn law_temporaries_shown_iff_included(
    graph: HeapGraphModel,
    db: &Db,
    w: WriterModel,
    edge: LocalVariableEdge,
    source: Seq<char>,
    index: usize,
)
    ensures
        edge.name is None && !w.include_temporaries ==> graph.print_field(
            w,
            edge.value,
            variable_name(db, edge, w.include_temporaries),
            source,
            index,
        ) == w,
        edge.name is Some || w.include_temporaries ==> graph.print_field(
            w,
            edge.value,
            variable_name(db, edge, w.include_temporaries),
            source,
            index,
        ).output.len() > w.output.len(),
{
}

/// The two clusters of a snapshot paired with itself are one text, drawn
/// twice: the same function of the snapshot, once with the prefix of the
/// later state and once with that of the earlier.
pub proof fn law_paired_clusters_agree(graph: HeapGraphModel, db: &Db, include_temporaries: bool)
    ensures
        graph.paired_text(db, include_temporaries, graph) == HeapGraphModel::graph_header()
            + "  subgraph cluster_after {\n    label=<<b>after</b>>\n"@ + graph.cluster_text(
            db,
            include_temporaries,
            "after"@,
            4,
        ) + "  }\n  subgraph cluster_before {\n    label=<<b>before</b>>\n"@ + graph.cluster_text(
            db,
            include_temporaries,
            "before"@,
            4,
        ) + "  }\n}\n"@,
{
}

} // verus!
