use dada_execute::bir::{
    ActionData, Atomic, Bir, BirData, BirRecord, ControlPoint, ControlPointData, Expr, ExprData,
    LocalVariable, LocalVariableData, Origins, Place, PlaceData, StatementData, SyntaxExpr, SyntaxTree,
    Tables, TargetPlace, TargetPlaceData, TerminatorData, TerminatorExpr,
};
use dada_execute::class::{Class, ClassData, Signature, SyntaxName};
use dada_execute::db::Db;
use dada_execute::function::{Effect, Function, FunctionData, Intrinsic};
use dada_execute::heap_graph::{
    DataNode, HeapGraph, ObjectNode, ObjectNodeKind, PermissionNode, PermissionNodeLabel, ValueEdge,
    ValueEdgeTarget,
};
use dada_execute::kernel::{GraphSource, HostError, Kernel};
use dada_execute::machine::{Frame, Machine, ObjectData};
use dada_execute::model::{Object, Permission, PermissionData, PermissionKind, Value};
use dada_execute::span::{FileSpan, InputFile, Span};
use dada_execute::step::{ControlFlow, Stepper};
use dada_execute::text::elide;
use dada_execute::word::Word;

struct Code {
    tables: Tables,
    origins: Origins,
    spans: Vec<Span>,
}

impl Code {
    fn new() -> Code {
        Code {
            tables: Tables {
                local_variables: vec![],
                control_points: vec![],
                exprs: vec![],
                places: vec![],
                target_places: vec![],
                names: vec![],
            },
            origins: Origins { control_points: vec![], exprs: vec![], places: vec![], target_places: vec![] },
            spans: vec![],
        }
    }

    fn syntax(&mut self) -> SyntaxExpr {
        let index = self.spans.len();
        self.spans.push(Span { start: 10 * index, end: 10 * index + 5 });
        SyntaxExpr { index }
    }

    fn local(&mut self, name: Option<Word>) -> LocalVariable {
        self.tables.local_variables.push(LocalVariableData { name, atomic: Atomic::No });
        LocalVariable { index: self.tables.local_variables.len() - 1 }
    }

    fn place(&mut self, data: PlaceData) -> Place {
        let origin = self.syntax();
        self.tables.places.push(data);
        self.origins.places.push(origin);
        Place { index: self.tables.places.len() - 1 }
    }

    fn var(&mut self, local: LocalVariable) -> Place {
        self.place(PlaceData::LocalVariable(local))
    }

    fn to(&mut self, local: LocalVariable) -> TargetPlace {
        let origin = self.syntax();
        self.tables.target_places.push(TargetPlaceData::LocalVariable(local));
        self.origins.target_places.push(origin);
        TargetPlace { index: self.tables.target_places.len() - 1 }
    }

    fn expr(&mut self, data: ExprData) -> Expr {
        let origin = self.syntax();
        self.tables.exprs.push(data);
        self.origins.exprs.push(origin);
        Expr { index: self.tables.exprs.len() - 1 }
    }

    fn point(&mut self, data: ControlPointData) -> ControlPoint {
        let origin = self.syntax();
        self.tables.control_points.push(data);
        self.origins.control_points.push(origin);
        ControlPoint { index: self.tables.control_points.len() - 1 }
    }

    fn next(&self) -> ControlPoint {
        ControlPoint { index: self.tables.control_points.len() + 1 }
    }

    fn assign(&mut self, local: LocalVariable, expr: ExprData) -> ControlPoint {
        let target = self.to(local);
        let expr = self.expr(expr);
        let next = self.next();
        self.point(ControlPointData::Statement(StatementData {
            action: ActionData::AssignExpr(target, expr),
            next,
        }))
    }

    fn call(&mut self, local: LocalVariable, function: Place, arguments: Vec<Place>) -> ControlPoint {
        let target = self.to(local);
        let labels = arguments.iter().map(|_| None).collect();
        let next = self.next();
        self.point(ControlPointData::Terminator(TerminatorData::Assign(
            target,
            TerminatorExpr::Call { function, arguments, labels },
            next,
        )))
    }

    fn return_unit(&mut self) -> ControlPoint {
        let result = self.local(None);
        self.assign(result, ExprData::Unit);
        let place = self.var(result);
        self.point(ControlPointData::Terminator(TerminatorData::Return(place)))
    }

    fn finish(self, db: &mut Db, name: &str, num_parameters: usize) -> Bir {
        let function_name = db.intern(name);
        db.birs.push(BirRecord {
            input_file: InputFile { index: 0 },
            function_name,
            syntax_tree: SyntaxTree { spans: self.spans },
            data: BirData::new(self.tables, num_parameters, ControlPoint { index: 0 }),
            origins: self.origins,
        });
        Bir { index: db.birs.len() - 1 }
    }
}

fn class(db: &mut Db, name: &str, fields: &[&str]) -> Class {
    let name = db.intern(name);
    let fields = fields.iter().map(|f| db.intern(f)).collect();
    db.classes.push(ClassData {
        name,
        input_file: InputFile { index: 0 },
        signature_syntax: Signature {
            name: SyntaxName { index: 1 },
            spans: vec![Span { start: 0, end: 5 }, Span { start: 6, end: 11 }],
        },
        span: Span { start: 0, end: 40 },
        fields,
    });
    Class { index: db.classes.len() - 1 }
}

struct Quiet;

impl Kernel for Quiet {
    fn breakpoint_start(&mut self, _: &Db, _: InputFile, _: usize, _: &GraphSource) -> Result<(), HostError> {
        Ok(())
    }

    fn breakpoint_end(
        &mut self,
        _: &Db,
        _: InputFile,
        _: usize,
        _: FileSpan,
        _: &GraphSource,
    ) -> Result<(), HostError> {
        Ok(())
    }
}

fn run<'a>(db: &'a Db, main: Bir, steps: usize) -> Stepper<'a> {
    assert!(db.validate());
    let mut machine = Machine::new();
    machine.push_frame(Frame::for_call(db, main, &vec![]));
    assert!(machine.validate(db));
    let mut stepper = Stepper::new(db, machine);
    for _ in 0..steps {
        assert!(matches!(stepper.step(&mut Quiet), Ok(ControlFlow::Next)));
        assert!(stepper.assert_invariants());
    }
    stepper
}

/// `p = Point(1, 2); q = p.lease`
fn leased_point(db: &mut Db) -> Bir {
    let point = class(db, "Point", &["x", "y"]);
    let mut code = Code::new();
    let p = code.local(Some(db.intern("p")));
    let q = code.local(Some(db.intern("q")));
    let a = code.local(None);
    let b = code.local(None);
    code.assign(a, ExprData::IntegerLiteral(1));
    code.assign(b, ExprData::IntegerLiteral(2));
    let callee = code.place(PlaceData::Class(point));
    let pa = code.var(a);
    let pb = code.var(b);
    code.call(p, callee, vec![pa, pb]);
    let from = code.var(p);
    code.assign(q, ExprData::Lease(from));
    code.return_unit();
    code.finish(db, "main", 0)
}

#[test]
fn a_snapshot_renumbers_what_it_captures() {
    let mut db = Db::new();
    let main = leased_point(&mut db);
    let stepper = run(&db, main, 4);
    let graph = HeapGraph::new(&db, &stepper.machine, None);
    // The class that was called is gone; the instance is object 3 of the
    // machine and the only object node of the snapshot.
    assert_eq!(graph.objects.len(), 1);
    assert_eq!(graph.objects[0].object, Object { index: 3 });
    assert_eq!(graph.objects[0].kind, ObjectNodeKind::Instance(Class { index: 0 }));
    assert_eq!(graph.datas.len(), 2);
    assert_eq!(graph.datas[0].object, Object { index: 0 });
    assert_eq!(graph.datas[0].debug, "1");
    assert_eq!(graph.datas[1].debug, "2");
    assert_eq!(graph.permissions.len(), 4);
    assert_eq!(graph.permissions[2].source, Permission { index: 3 });
    assert_eq!(graph.permissions[2].label, PermissionNodeLabel::My);
    assert_eq!(graph.permissions[2].tenant, Some(PermissionNode { index: 3 }));
    assert_eq!(graph.permissions[3].source, Permission { index: 4 });
    assert_eq!(graph.permissions[3].label, PermissionNodeLabel::Leased);
    assert_eq!(graph.permissions[3].lessor, Some(PermissionNode { index: 2 }));
    assert_eq!(graph.permissions[3].tenant, None);
    assert_eq!(graph.stack.len(), 1);
    let frame = &graph.stack[0];
    assert_eq!(frame.function_name.as_str(&db), "main");
    assert_eq!(frame.variables.len(), 5);
    assert_eq!(
        frame.variables[0].value,
        Some(ValueEdge {
            permission: PermissionNode { index: 2 },
            target: ValueEdgeTarget::Object(ObjectNode { index: 0 }),
        })
    );
    assert_eq!(
        frame.variables[1].value,
        Some(ValueEdge {
            permission: PermissionNode { index: 3 },
            target: ValueEdgeTarget::Object(ObjectNode { index: 0 }),
        })
    );
    assert_eq!(
        frame.variables[3].value,
        Some(ValueEdge {
            permission: PermissionNode { index: 1 },
            target: ValueEdgeTarget::Data(DataNode { index: 1 }),
        })
    );
    assert_eq!(frame.variables[4].value, None);
    assert_eq!(frame.in_flight_value, None);
    assert_eq!(
        graph.objects[0].fields,
        vec![
            Some(ValueEdge {
                permission: PermissionNode { index: 0 },
                target: ValueEdgeTarget::Data(DataNode { index: 0 }),
            }),
            Some(ValueEdge {
                permission: PermissionNode { index: 1 },
                target: ValueEdgeTarget::Data(DataNode { index: 1 }),
            }),
        ]
    );
    // The frame stood at the return statement's assignment: the span is that
    // of the control point.
    assert_eq!(frame.span.input_file, InputFile { index: 0 });
}

#[test]
fn a_snapshot_outlives_the_machine() {
    let mut db = Db::new();
    let main = leased_point(&mut db);
    let mut stepper = run(&db, main, 4);
    let graph = HeapGraph::new(&db, &stepper.machine, None);
    let before = graph.graphviz_alone(&db, true);
    assert!(matches!(stepper.step(&mut Quiet), Ok(ControlFlow::Next)));
    assert!(matches!(stepper.step(&mut Quiet), Ok(ControlFlow::Done(_, _))));
    assert_eq!(graph.graphviz_alone(&db, true), before);
}

#[test]
fn the_graph_of_a_leased_point() {
    let mut db = Db::new();
    let main = leased_point(&mut db);
    let stepper = run(&db, main, 4);
    let graph = HeapGraph::new(&db, &stepper.machine, None);
    let expected = "digraph {
  node[shape = \"note\"];
  rankdir = \"LR\";
  subgraph cluster_stack {
    label=<<b>stack</b>>
    rank=\"source\";
    stack[
      shape=\"none\";
      label=<
        <table border=\"0\">
        <tr><td border=\"1\">main</td></tr>
        <tr><td port=\"0\">p</td></tr>
        <tr><td port=\"1\">q</td></tr>
        </table>
      >;
    ];
  }
  node0 [
    label = <<table border=\"0\">
      <tr><td border=\"1\">Point</td></tr>
      <tr><td port=\"0\">x: 1</td></tr>
      <tr><td port=\"1\">y: 2</td></tr>
    </table>>
  ];
  \"stack\":0 -> \"node0\" [label=\"my\", style=\"dotted\"];
  \"stack\":1 -> \"node0\" [label=\"leased\", style=\"solid\"];
}
";
    assert_eq!(graph.graphviz_alone(&db, false), expected);
}

#[test]
fn temporaries_appear_only_when_asked_for() {
    let mut db = Db::new();
    let main = leased_point(&mut db);
    let stepper = run(&db, main, 4);
    let graph = HeapGraph::new(&db, &stepper.machine, None);
    let without = graph.graphviz_alone(&db, false);
    let with = graph.graphviz_alone(&db, true);
    assert!(!without.contains("LocalVariable"));
    assert!(with.contains("        <tr><td port=\"2\">LocalVariable(2): 1</td></tr>\n"));
    assert!(with.contains("        <tr><td port=\"3\">LocalVariable(3): 2</td></tr>\n"));
    // The temporary that holds nothing yet is shown without a value.
    assert!(with.contains("        <tr><td port=\"4\">LocalVariable(4)</td></tr>\n"));
    // Named variables are shown either way, at the same ports.
    assert!(with.contains("        <tr><td port=\"1\">q</td></tr>\n"));
    assert!(without.contains("        <tr><td port=\"1\">q</td></tr>\n"));
    assert_eq!(with.lines().count(), without.lines().count() + 3);
}

#[test]
fn a_snapshot_paired_with_itself_draws_the_same_cluster_twice() {
    let mut db = Db::new();
    let main = leased_point(&mut db);
    let stepper = run(&db, main, 4);
    let graph = HeapGraph::new(&db, &stepper.machine, None);
    let text = graph.graphviz_paired(&db, false, &graph);
    let after_start = text.find("  subgraph cluster_after {\n    label=<<b>after</b>>\n").unwrap();
    let before_start = text.find("  subgraph cluster_before {\n    label=<<b>before</b>>\n").unwrap();
    let after = &text[after_start + "  subgraph cluster_after {\n    label=<<b>after</b>>\n".len()..before_start];
    let before = &text
        [before_start + "  subgraph cluster_before {\n    label=<<b>before</b>>\n".len()..text.len() - "}\n".len()];
    assert!(after.contains("afternode0"));
    assert!(before.contains("\"beforestack\":1 -> \"beforenode0\" [label=\"leased\", style=\"solid\"];"));
    assert_eq!(after.replace("after", "before"), before);
    // Each cluster is the graph alone, further in and with its prefix.
    let alone = graph.graphviz_alone(&db, false);
    let body: String = alone
        .lines()
        .skip(3)
        .take_while(|line| *line != "}")
        .map(|line| format!("  {}\n", line))
        .collect();
    let unprefixed = before.replace("beforenode", "node").replace("beforestack", "stack");
    assert_eq!(unprefixed, format!("{}  }}\n", body));
}

fn show(db: &mut Db, text: &str) -> String {
    let word = db.intern(text);
    let mut code = Code::new();
    let s = code.local(Some(db.intern("s")));
    code.assign(s, ExprData::StringLiteral(word));
    code.return_unit();
    let main = code.finish(db, "main", 0);
    let stepper = run(db, main, 1);
    let graph = HeapGraph::new(db, &stepper.machine, None);
    assert_eq!(graph.datas.len(), 1);
    assert_eq!(graph.datas[0].debug, format!("{:?}", text));
    let text = graph.graphviz_alone(db, false);
    let row = text.lines().find(|line| line.contains("port=\"0\"")).unwrap();
    row.trim().to_string()
}

#[test]
fn data_are_quoted_escaped_and_cut() {
    let mut db = Db::new();
    assert_eq!(show(&mut db, "hi"), "<tr><td port=\"0\">s: \"hi\"</td></tr>");
    let mut db = Db::new();
    assert_eq!(
        show(&mut db, "a<b>&c \"d\"\n"),
        "<tr><td port=\"0\">s: \"a&lt;b&gt;&amp;c \\\"d\\\"\\n\"</td></tr>"
    );
    // With its quotes, a string of 38 characters makes 40: shown whole.
    let mut db = Db::new();
    let whole = "a".repeat(38);
    assert_eq!(show(&mut db, &whole), format!("<tr><td port=\"0\">s: \"{}\"</td></tr>", whole));
    // One more makes 41: cut to 20, the marker, and 20.
    let mut db = Db::new();
    let long = "b".repeat(39);
    assert_eq!(
        show(&mut db, &long),
        format!("<tr><td port=\"0\">s: \"{}[...]{}\"</td></tr>", "b".repeat(19), "b".repeat(19))
    );
    // Escaping comes first: the entity counts with all its characters.
    let mut db = Db::new();
    let sharp = format!("{}<", "c".repeat(35));
    assert_eq!(
        show(&mut db, &sharp),
        format!("<tr><td port=\"0\">s: \"{}[...]{}&lt;\"</td></tr>", "c".repeat(19), "c".repeat(15))
    );
}

#[test]
fn eliding_counts_characters() {
    assert_eq!(elide("x".repeat(40)), "x".repeat(40));
    assert_eq!(elide("x".repeat(41)), format!("{}[...]{}", "x".repeat(20), "x".repeat(20)));
    assert_eq!(elide(String::new()), "");
    let accents = "é".repeat(40);
    assert_eq!(elide(accents.clone()), accents);
    let text: String = ('a'..='z').chain('A'..='Z').collect();
    assert_eq!(elide(text), "abcdefghijklmnopqrst[...]GHIJKLMNOPQRSTUVWXYZ");
    assert_eq!(elide("é".repeat(41)), format!("{}[...]{}", "é".repeat(20), "é".repeat(20)));
}

#[test]
fn classes_functions_tuples_and_thunks_are_nodes() {
    let mut db = Db::new();
    let point = class(&mut db, "Point", &["x", "y"]);
    let mut callee = Code::new();
    callee.return_unit();
    let f_code = callee.finish(&mut db, "f", 0);
    let name = db.intern("f");
    db.functions.push(FunctionData { name, effect: Effect::Async, bir: f_code });
    let f = Function { index: 0 };

    let mut code = Code::new();
    let c = code.local(Some(db.intern("c")));
    let g = code.local(Some(db.intern("g")));
    let t = code.local(Some(db.intern("t")));
    let u = code.local(Some(db.intern("u")));
    let n = code.local(None);
    let from = code.place(PlaceData::Class(point));
    code.assign(c, ExprData::Give(from));
    let from = code.place(PlaceData::Function(f));
    code.assign(g, ExprData::Give(from));
    code.assign(n, ExprData::IntegerLiteral(7));
    let first = code.var(n);
    let second = code.var(c);
    code.assign(t, ExprData::Tuple(vec![first, second]));
    let function = code.var(g);
    code.call(u, function, vec![]);
    code.return_unit();
    let main = code.finish(&mut db, "main", 0);
    let stepper = run(&db, main, 5);
    let graph = HeapGraph::new(&db, &stepper.machine, None);
    let expected = "digraph {
  node[shape = \"note\"];
  rankdir = \"LR\";
  subgraph cluster_stack {
    label=<<b>stack</b>>
    rank=\"source\";
    stack[
      shape=\"none\";
      label=<
        <table border=\"0\">
        <tr><td border=\"1\">main</td></tr>
        <tr><td port=\"0\">c</td></tr>
        <tr><td port=\"1\">g</td></tr>
        <tr><td port=\"2\">t</td></tr>
        <tr><td port=\"3\">u</td></tr>
        </table>
      >;
    ];
  }
  node3 [
    label = <<table border=\"0\">
      <tr><td border=\"1\">f()</td></tr>
    </table>>
  ];
  node2 [
    label = <<table border=\"0\">
      <tr><td border=\"1\">tuple</td></tr>
      <tr><td port=\"0\">0: 7</td></tr>
      <tr><td port=\"1\">1</td></tr>
    </table>>
  ];
  node1 [
    label = <<b>f()</b>>
  ];
  node0 [
    label = <<b>Point</b>>
  ];
  \"stack\":0 -> \"node0\" [label=\"our\", style=\"solid\"];
  \"stack\":1 -> \"node1\" [label=\"our\", style=\"solid\"];
  \"stack\":2 -> \"node2\" [label=\"my\", style=\"solid\"];
  \"stack\":3 -> \"node3\" [label=\"my\", style=\"solid\"];
  \"node2\":1 -> \"node0\" [label=\"our\", style=\"solid\"];
}
";
    assert_eq!(graph.graphviz_alone(&db, false), expected);
}

#[test]
fn the_value_in_flight_is_shown_in_the_top_frame() {
    let mut db = Db::new();
    let main = leased_point(&mut db);
    let stepper = run(&db, main, 4);
    let p = stepper.machine.local(LocalVariable { index: 0 }).unwrap();
    let lease = stepper.machine.local(LocalVariable { index: 1 }).unwrap();
    let graph = HeapGraph::new(&db, &stepper.machine, Some(lease));
    assert_eq!(graph.stack[0].in_flight_value, graph.stack[0].variables[1].value);
    let text = graph.graphviz_alone(&db, false);
    assert!(text.contains("        <tr><td port=\"5\">(in-flight)</td></tr>\n"));
    assert!(text.contains("  \"stack\":5 -> \"node0\" [label=\"leased\", style=\"solid\"];\n"));
    // A value in flight that nothing else holds is captured too.
    let mut machine = Machine::new();
    machine.push_frame(Frame::for_call(&db, main, &vec![]));
    let loose = machine.new_value(ObjectData::Bool(true), PermissionData::my());
    let graph = HeapGraph::new(&db, &machine, Some(loose));
    assert_eq!(graph.datas.len(), 1);
    assert_eq!(graph.datas[0].debug, "true");
    assert!(graph.graphviz_alone(&db, false).contains("<tr><td port=\"5\">(in-flight): true</td></tr>"));
    let _ = (p, PermissionKind::My, Value { object: p.object, permission: p.permission }, Intrinsic::Print);
}

#[test]
fn canceled_permissions_are_labelled_expired() {
    let mut db = Db::new();
    let point = class(&mut db, "Point", &["x", "y"]);
    let mut code = Code::new();
    let p = code.local(Some(db.intern("p")));
    let q = code.local(Some(db.intern("q")));
    let r = code.local(Some(db.intern("r")));
    let a = code.local(None);
    let b = code.local(None);
    code.assign(a, ExprData::IntegerLiteral(1));
    code.assign(b, ExprData::IntegerLiteral(2));
    let callee = code.place(PlaceData::Class(point));
    let pa = code.var(a);
    let pb = code.var(b);
    code.call(p, callee, vec![pa, pb]);
    let from = code.var(p);
    code.assign(q, ExprData::Lease(from));
    let from = code.var(p);
    code.assign(r, ExprData::Lease(from));
    code.return_unit();
    let main = code.finish(&mut db, "main", 0);
    let stepper = run(&db, main, 5);
    let graph = HeapGraph::new(&db, &stepper.machine, None);
    let text = graph.graphviz_alone(&db, false);
    assert!(text.contains("  \"stack\":0 -> \"node0\" [label=\"my\", style=\"dotted\"];\n"));
    assert!(text.contains("  \"stack\":1 -> \"node0\" [label=\"expired\", style=\"solid\"];\n"));
    assert!(text.contains("  \"stack\":2 -> \"node0\" [label=\"leased\", style=\"solid\"];\n"));
}

#[test]
fn other_data() {
    let mut machine = Machine::new();
    let mut db = Db::new();
    let mut code = Code::new();
    for name in ["a", "b", "c", "d", "e", "f"] {
        let word = db.intern(name);
        code.local(Some(word));
    }
    code.return_unit();
    let main = code.finish(&mut db, "main", 0);
    let values = vec![
        Some(machine.new_value(ObjectData::Int(-42), PermissionData::our())),
        Some(machine.new_value(ObjectData::Unit, PermissionData::our())),
        Some(machine.new_value(ObjectData::Float(0x3ff8000000000000), PermissionData::our())),
        Some(machine.new_value(ObjectData::Intrinsic(Intrinsic::Print), PermissionData::our())),
        Some(machine.new_value(ObjectData::Uint(u64::MAX), PermissionData::our())),
        Some(machine.new_value(ObjectData::Bool(false), PermissionData::our())),
    ];
    machine.push_frame(Frame::for_call(&db, main, &values));
    let graph = HeapGraph::new(&db, &machine, None);
    let text = graph.graphviz_alone(&db, false);
    assert!(text.contains(">a: -42<"));
    assert!(text.contains(">b: ()<"));
    assert!(text.contains(">c: float(0x3ff8000000000000)<"));
    assert!(text.contains(">d: print<"));
    assert!(text.contains(">e: 18446744073709551615<"));
    assert!(text.contains(">f: false<"));
}
