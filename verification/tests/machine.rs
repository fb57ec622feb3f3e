use dada_execute::bir::{
    ActionData, Atomic, Bir, BirData, BirRecord, ControlPoint, ControlPointData, Expr, ExprData,
    LocalVariable, LocalVariableData, Name, NameData, Op, Origins, Place, PlaceData, StatementData,
    SyntaxExpr, SyntaxTree, Tables, TargetPlace, TargetPlaceData, TerminatorData, TerminatorExpr,
};
use dada_execute::class::{Class, ClassData, Signature, SyntaxName};
use dada_execute::db::Db;
use dada_execute::fault::{Fault, FaultKind};
use dada_execute::function::{Effect, Function, FunctionData, Intrinsic};
use dada_execute::heap_graph::HeapGraph;
use dada_execute::kernel::{GraphSource, HostError, Kernel};
use dada_execute::machine::{Frame, Machine, ObjectData};
use dada_execute::model::{Object, Permission, PermissionKind, ProgramCounter, Value};
use dada_execute::span::{FileSpan, InputFile, Span};
use dada_execute::step::{ControlFlow, Stepper};
use dada_execute::word::Word;

/// The code of one function while it is written down.
struct Code {
    tables: Tables,
    origins: Origins,
    spans: Vec<Span>,
}

impl Code {
    fn new() -> Code {
        Code {
            tables: Tables {
                local_variables: vec![],
                control_points: vec![],
                exprs: vec![],
                places: vec![],
                target_places: vec![],
                names: vec![],
            },
            origins: Origins { control_points: vec![], exprs: vec![], places: vec![], target_places: vec![] },
            spans: vec![],
        }
    }

    fn syntax(&mut self) -> SyntaxExpr {
        let index = self.spans.len();
        self.spans.push(Span { start: 10 * index, end: 10 * index + 5 });
        SyntaxExpr { index }
    }

    fn local(&mut self, name: Option<Word>) -> LocalVariable {
        self.tables.local_variables.push(LocalVariableData { name, atomic: Atomic::No });
        LocalVariable { index: self.tables.local_variables.len() - 1 }
    }

    fn place(&mut self, data: PlaceData) -> Place {
        let origin = self.syntax();
        self.tables.places.push(data);
        self.origins.places.push(origin);
        Place { index: self.tables.places.len() - 1 }
    }

    fn var(&mut self, local: LocalVariable) -> Place {
        self.place(PlaceData::LocalVariable(local))
    }

    fn target(&mut self, data: TargetPlaceData) -> TargetPlace {
        let origin = self.syntax();
        self.tables.target_places.push(data);
        self.origins.target_places.push(origin);
        TargetPlace { index: self.tables.target_places.len() - 1 }
    }

    fn to(&mut self, local: LocalVariable) -> TargetPlace {
        self.target(TargetPlaceData::LocalVariable(local))
    }

    fn expr(&mut self, data: ExprData) -> Expr {
        let origin = self.syntax();
        self.tables.exprs.push(data);
        self.origins.exprs.push(origin);
        Expr { index: self.tables.exprs.len() - 1 }
    }

    /// Adds a control point; a statement is followed by the control point
    /// added next.
    fn point(&mut self, data: ControlPointData) -> ControlPoint {
        let origin = self.syntax();
        self.tables.control_points.push(data);
        self.origins.control_points.push(origin);
        ControlPoint { index: self.tables.control_points.len() - 1 }
    }

    fn next(&self) -> ControlPoint {
        ControlPoint { index: self.tables.control_points.len() + 1 }
    }

    fn statement(&mut self, action: ActionData) -> ControlPoint {
        let next = self.next();
        self.point(ControlPointData::Statement(StatementData { action, next }))
    }

    fn assign(&mut self, local: LocalVariable, expr: ExprData) -> ControlPoint {
        let target = self.to(local);
        let expr = self.expr(expr);
        self.statement(ActionData::AssignExpr(target, expr))
    }

    fn terminator(&mut self, data: TerminatorData) -> ControlPoint {
        self.point(ControlPointData::Terminator(data))
    }

    /// `local = function(arguments)`, then on to the control point added
    /// next.
    fn call(&mut self, local: LocalVariable, function: Place, arguments: Vec<Place>) -> ControlPoint {
        let target = self.to(local);
        let labels = arguments.iter().map(|_| None).collect();
        let next = self.next();
        self.terminator(TerminatorData::Assign(
            target,
            TerminatorExpr::Call { function, arguments, labels },
            next,
        ))
    }

    /// Returns the unit.
    fn return_unit(&mut self) -> ControlPoint {
        let result = self.local(None);
        self.assign(result, ExprData::Unit);
        let place = self.var(result);
        self.terminator(TerminatorData::Return(place))
    }

    fn finish(self, db: &mut Db, name: &str, num_parameters: usize) -> Bir {
        let function_name = db.intern(name);
        db.birs.push(BirRecord {
            input_file: InputFile { index: 0 },
            function_name,
            syntax_tree: SyntaxTree { spans: self.spans },
            data: BirData::new(self.tables, num_parameters, ControlPoint { index: 0 }),
            origins: self.origins,
        });
        Bir { index: db.birs.len() - 1 }
    }
}

fn class(db: &mut Db, name: &str, fields: &[&str]) -> Class {
    let name = db.intern(name);
    let fields = fields.iter().map(|f| db.intern(f)).collect();
    db.classes.push(ClassData {
        name,
        input_file: InputFile { index: 0 },
        signature_syntax: Signature {
            name: SyntaxName { index: 1 },
            spans: vec![Span { start: 0, end: 5 }, Span { start: 6, end: 11 }],
        },
        span: Span { start: 0, end: 40 },
        fields,
    });
    Class { index: db.classes.len() - 1 }
}

fn function(db: &mut Db, name: &str, effect: Effect, bir: Bir) -> Function {
    let name = db.intern(name);
    db.functions.push(FunctionData { name, effect, bir });
    Function { index: db.functions.len() - 1 }
}

/// A kernel that agrees to everything and keeps the graphs it was offered.
struct Recorder {
    refuse: bool,
    starts: Vec<HeapGraph>,
    ends: Vec<(FileSpan, HeapGraph)>,
}

impl Recorder {
    fn new() -> Recorder {
        Recorder { refuse: false, starts: vec![], ends: vec![] }
    }
}

impl Kernel for Recorder {
    fn breakpoint_start(
        &mut self,
        _db: &Db,
        _file: InputFile,
        _index: usize,
        graph: &GraphSource,
    ) -> Result<(), HostError> {
        if self.refuse {
            return Err(HostError { message: "no".to_string() });
        }
        self.starts.push(graph.heap_graph());
        Ok(())
    }

    fn breakpoint_end(
        &mut self,
        _db: &Db,
        _file: InputFile,
        _index: usize,
        span: FileSpan,
        graph: &GraphSource,
    ) -> Result<(), HostError> {
        if self.refuse {
            return Err(HostError { message: "no".to_string() });
        }
        self.ends.push((span, graph.heap_graph()));
        Ok(())
    }
}

fn start<'a>(db: &'a Db, main: Bir) -> Stepper<'a> {
    let mut machine = Machine::new();
    machine.push_frame(Frame::for_call(db, main, &vec![]));
    Stepper::new(db, machine)
}

/// Steps `n` times, expecting to be told to step again each time.
fn run(stepper: &mut Stepper, n: usize) {
    let mut kernel = Recorder::new();
    for _ in 0..n {
        match stepper.step(&mut kernel) {
            Ok(ControlFlow::Next) => {}
            other => panic!("unexpected {:?}", other),
        }
        assert!(stepper.assert_invariants());
    }
}

fn fault(stepper: &mut Stepper) -> Fault {
    let mut kernel = Recorder::new();
    match stepper.step(&mut kernel) {
        Err(fault) => {
            assert!(stepper.assert_invariants());
            fault
        }
        other => panic!("unexpected {:?}", other),
    }
}

fn local(stepper: &Stepper, index: usize) -> Option<Value> {
    stepper.machine.local(LocalVariable { index })
}

fn kind(stepper: &Stepper, p: Permission) -> PermissionKind {
    stepper.machine.permission(p).unwrap().kind
}

/// `p = Point(1, 2)` in three steps: p is variable 0 and the code uses the
/// variables 1 and 2 for the arguments.
fn make_point(code: &mut Code, db: &mut Db, point: Class, p: LocalVariable) {
    let a = code.local(None);
    let b = code.local(None);
    code.assign(a, ExprData::IntegerLiteral(1));
    code.assign(b, ExprData::IntegerLiteral(2));
    let callee = code.place(PlaceData::Class(point));
    let pa = code.var(a);
    let pb = code.var(b);
    let _ = db;
    code.call(p, callee, vec![pa, pb]);
}

#[test]
fn unique_give_moves_the_value() {
    let mut db = Db::new();
    let point = class(&mut db, "Point", &["x", "y"]);
    let mut code = Code::new();
    let p = code.local(Some(db.intern("p")));
    let q = code.local(Some(db.intern("q")));
    make_point(&mut code, &mut db, point, p);
    let from = code.var(p);
    code.assign(q, ExprData::Give(from));
    code.return_unit();
    let main = code.finish(&mut db, "main", 0);

    let mut stepper = start(&db, main);
    run(&mut stepper, 3);
    let before = local(&stepper, 0).unwrap();
    assert_eq!(kind(&stepper, before.permission), PermissionKind::My);
    run(&mut stepper, 1);
    assert_eq!(local(&stepper, 0), None);
    let after = local(&stepper, 1).unwrap();
    assert_eq!(after, before);
    assert_eq!(kind(&stepper, after.permission), PermissionKind::My);
    assert!(!stepper.machine.permission(after.permission).unwrap().canceled);
}

#[test]
fn mutation_through_the_lessor_cancels_the_lease() {
    let mut db = Db::new();
    let point = class(&mut db, "Point", &["x", "y"]);
    let x = db.intern("x");
    let mut code = Code::new();
    let p = code.local(Some(db.intern("p")));
    let q = code.local(Some(db.intern("q")));
    let r = code.local(Some(db.intern("r")));
    make_point(&mut code, &mut db, point, p);
    let from = code.var(p);
    code.assign(q, ExprData::Lease(from));
    // p.x = 9
    let nine = code.local(None);
    code.assign(nine, ExprData::IntegerLiteral(9));
    let owner = code.var(p);
    let px = code.target(TargetPlaceData::Dot(owner, x));
    let given = code.var(nine);
    let give = code.expr(ExprData::Give(given));
    code.statement(ActionData::AssignExpr(px, give));
    // r = q.x
    let leased = code.var(q);
    let qx = code.place(PlaceData::Dot(leased, x));
    code.assign(r, ExprData::Give(qx));
    code.return_unit();
    let main = code.finish(&mut db, "main", 0);

    let mut stepper = start(&db, main);
    run(&mut stepper, 4);
    let lease = local(&stepper, 1).unwrap();
    let owner = local(&stepper, 0).unwrap();
    assert_eq!(kind(&stepper, lease.permission), PermissionKind::Leased);
    assert_eq!(stepper.machine.permission(lease.permission).unwrap().lessor, Some(owner.permission));
    assert_eq!(stepper.machine.permission(owner.permission).unwrap().tenant, Some(lease.permission));
    assert!(!stepper.machine.permission(lease.permission).unwrap().canceled);
    run(&mut stepper, 2);
    // The write went through: p.x is 9.
    let field = stepper.machine.object_slot(owner.object, 0).unwrap();
    assert!(matches!(stepper.machine.object(field.object), Some(ObjectData::Uint(9))));
    // The lease is canceled, and the owner has no tenant any more.
    assert!(stepper.machine.permission(lease.permission).unwrap().canceled);
    assert_eq!(stepper.machine.permission(owner.permission).unwrap().tenant, None);
    assert!(!stepper.machine.permission(owner.permission).unwrap().canceled);
    let fault = fault(&mut stepper);
    assert_eq!(fault.kind, FaultKind::UseOfCanceledPermission);
    // The fault does not move the program counter.
    assert_eq!(
        stepper.machine.pc(),
        Some(ProgramCounter { bir: main, basic_block: ControlPoint { index: 3 }, statement: 3 })
    );
}

#[test]
fn share_demotes_and_aliases() {
    let mut db = Db::new();
    let point = class(&mut db, "Point", &["x", "y"]);
    let mut code = Code::new();
    let p = code.local(Some(db.intern("p")));
    let q = code.local(Some(db.intern("q")));
    let r = code.local(Some(db.intern("r")));
    make_point(&mut code, &mut db, point, p);
    let from = code.var(p);
    code.assign(q, ExprData::Share(from));
    let from = code.var(p);
    code.assign(r, ExprData::Share(from));
    code.return_unit();
    let main = code.finish(&mut db, "main", 0);

    let mut stepper = start(&db, main);
    run(&mut stepper, 5);
    let p = local(&stepper, 0).unwrap();
    let q = local(&stepper, 1).unwrap();
    let r = local(&stepper, 2).unwrap();
    assert_eq!(p, q);
    assert_eq!(q, r);
    assert_eq!(kind(&stepper, p.permission), PermissionKind::Our);
    assert!(!stepper.machine.permission(p.permission).unwrap().canceled);
}

#[test]
fn give_after_share_duplicates() {
    let mut db = Db::new();
    let point = class(&mut db, "Point", &["x", "y"]);
    let mut code = Code::new();
    let p = code.local(Some(db.intern("p")));
    let q = code.local(Some(db.intern("q")));
    let r = code.local(Some(db.intern("r")));
    make_point(&mut code, &mut db, point, p);
    let from = code.var(p);
    code.assign(q, ExprData::Share(from));
    let from = code.var(p);
    code.assign(r, ExprData::Give(from));
    code.return_unit();
    let main = code.finish(&mut db, "main", 0);

    let mut stepper = start(&db, main);
    run(&mut stepper, 5);
    // The give did not move: p is still there, and r aliases it.
    let p = local(&stepper, 0).unwrap();
    assert_eq!(local(&stepper, 2), Some(p));
    assert_eq!(kind(&stepper, p.permission), PermissionKind::Our);
}

#[test]
fn a_second_lease_replaces_the_first() {
    let mut db = Db::new();
    let point = class(&mut db, "Point", &["x", "y"]);
    let mut code = Code::new();
    let p = code.local(Some(db.intern("p")));
    let q = code.local(Some(db.intern("q")));
    let r = code.local(Some(db.intern("r")));
    make_point(&mut code, &mut db, point, p);
    let from = code.var(p);
    code.assign(q, ExprData::Lease(from));
    let from = code.var(p);
    code.assign(r, ExprData::Lease(from));
    code.return_unit();
    let main = code.finish(&mut db, "main", 0);

    let mut stepper = start(&db, main);
    run(&mut stepper, 5);
    let p = local(&stepper, 0).unwrap();
    let q = local(&stepper, 1).unwrap();
    let r = local(&stepper, 2).unwrap();
    assert!(stepper.machine.permission(q.permission).unwrap().canceled);
    assert!(!stepper.machine.permission(r.permission).unwrap().canceled);
    assert_eq!(stepper.machine.permission(p.permission).unwrap().tenant, Some(r.permission));
    assert_eq!(stepper.machine.permission(r.permission).unwrap().lessor, Some(p.permission));
    assert_eq!(kind(&stepper, r.permission), PermissionKind::Leased);
}

#[test]
fn a_new_tenant_cancels_the_whole_chain_below_the_old_one() {
    let mut db = Db::new();
    let point = class(&mut db, "Point", &["x", "y"]);
    let mut code = Code::new();
    let p = code.local(Some(db.intern("p")));
    let q = code.local(Some(db.intern("q")));
    let r = code.local(Some(db.intern("r")));
    let s = code.local(Some(db.intern("s")));
    make_point(&mut code, &mut db, point, p);
    let from = code.var(p);
    code.assign(q, ExprData::Lease(from));
    let from = code.var(q);
    code.assign(r, ExprData::Lease(from));
    let from = code.var(p);
    code.assign(s, ExprData::Lease(from));
    code.return_unit();
    let main = code.finish(&mut db, "main", 0);

    let mut stepper = start(&db, main);
    run(&mut stepper, 5);
    let q = local(&stepper, 1).unwrap();
    let r = local(&stepper, 2).unwrap();
    assert_eq!(stepper.machine.permission(r.permission).unwrap().lessor, Some(q.permission));
    assert!(!stepper.machine.permission(r.permission).unwrap().canceled);
    run(&mut stepper, 1);
    assert!(stepper.machine.permission(q.permission).unwrap().canceled);
    assert!(stepper.machine.permission(r.permission).unwrap().canceled);
    let s = local(&stepper, 3).unwrap();
    assert!(!stepper.machine.permission(s.permission).unwrap().canceled);
}

/// `main` calls `f(3)`, which returns 42, between two breakpoints.
fn call_program(db: &mut Db) -> Bir {
    let mut callee = Code::new();
    let _argument = callee.local(Some(db.intern("n")));
    let result = callee.local(None);
    callee.assign(result, ExprData::IntegerLiteral(42));
    let place = callee.var(result);
    callee.terminator(TerminatorData::Return(place));
    let f_code = callee.finish(db, "f", 1);
    let f = function(db, "f", Effect::Default, f_code);

    let mut code = Code::new();
    let x = code.local(Some(db.intern("x")));
    let three = code.local(None);
    code.statement(ActionData::BreakpointStart(InputFile { index: 0 }, 7));
    code.assign(three, ExprData::IntegerLiteral(3));
    let callee = code.place(PlaceData::Function(f));
    let argument = code.var(three);
    code.call(x, callee, vec![argument]);
    let whole = code.syntax();
    let produced = code.var(x);
    code.statement(ActionData::BreakpointEnd(InputFile { index: 0 }, 7, whole, Some(produced)));
    code.return_unit();
    code.finish(db, "main", 0)
}

#[test]
fn a_return_resumes_the_caller_at_the_next_block() {
    let mut db = Db::new();
    let main = call_program(&mut db);
    let mut stepper = start(&db, main);
    // breakpoint, literal, call
    run(&mut stepper, 3);
    assert_eq!(stepper.machine.stack_len(), 2);
    assert_eq!(
        stepper.machine.pc(),
        Some(ProgramCounter { bir: Bir { index: 0 }, basic_block: ControlPoint { index: 0 }, statement: 0 })
    );
    // The argument is the first variable of the callee.  It is
    // shared-immutable, so the caller still has it too.
    let argument = local(&stepper, 0).unwrap();
    assert!(matches!(stepper.machine.object(argument.object), Some(ObjectData::Uint(3))));
    assert_eq!(stepper.machine.frame(0).variables[1], Some(argument));
    // literal, return
    run(&mut stepper, 2);
    assert_eq!(stepper.machine.stack_len(), 1);
    assert_eq!(
        stepper.machine.pc(),
        Some(ProgramCounter { bir: main, basic_block: ControlPoint { index: 3 }, statement: 0 })
    );
    let x = local(&stepper, 0).unwrap();
    assert!(matches!(stepper.machine.object(x.object), Some(ObjectData::Uint(42))));
    // The function that was called was only needed for the call.
    assert!(stepper.machine.object(Object { index: 1 }).is_none());
}

#[test]
fn execution_is_done_when_the_last_frame_returns() {
    let mut db = Db::new();
    let mut code = Code::new();
    let result = code.local(None);
    code.assign(result, ExprData::IntegerLiteral(5));
    let place = code.var(result);
    let last = code.terminator(TerminatorData::Return(place));
    let main = code.finish(&mut db, "main", 0);
    let mut stepper = start(&db, main);
    run(&mut stepper, 1);
    let mut kernel = Recorder::new();
    match stepper.step(&mut kernel) {
        Ok(ControlFlow::Done(pc, value)) => {
            assert_eq!(pc, ProgramCounter { bir: main, basic_block: ControlPoint { index: 0 }, statement: 1 });
            assert_eq!(last, ControlPoint { index: 1 });
            // The collector keeps what was returned.
            assert!(matches!(stepper.machine.object(value.object), Some(ObjectData::Uint(5))));
            assert!(!stepper.is_unit(value));
        }
        other => panic!("unexpected {:?}", other),
    }
    assert_eq!(stepper.machine.stack_len(), 0);
}

#[test]
fn a_breakpoint_offers_the_state_before_and_after() {
    let mut db = Db::new();
    let main = call_program(&mut db);
    let mut stepper = start(&db, main);
    let mut kernel = Recorder::new();
    for _ in 0..6 {
        assert!(matches!(stepper.step(&mut kernel), Ok(ControlFlow::Next)));
    }
    assert_eq!(kernel.starts.len(), 1);
    assert_eq!(kernel.ends.len(), 1);
    let before = &kernel.starts[0];
    let (span, after) = &kernel.ends[0];
    // The span is that of the expression that the breakpoint names.
    assert_eq!(span.input_file, InputFile { index: 0 });
    assert_eq!(span.end, span.start + 5);
    // Before, x is uninitialized; after, it holds what f returned, which is
    // also the value in flight.
    assert_eq!(before.stack.len(), 1);
    assert!(before.stack[0].variables[0].value.is_none());
    assert!(after.stack[0].variables[0].value.is_some());
    assert_eq!(after.stack[0].in_flight_value, after.stack[0].variables[0].value);
    // The literal 3 was shared-immutable, so giving it to f left it in its
    // temporary too.
    assert_eq!(after.datas.len(), 2);
    assert_eq!(after.datas[0].debug, "3");
    assert_eq!(after.datas[1].debug, "42");
    let text = before.graphviz_paired(&db, false, after);
    let expected = "digraph {
  node[shape = \"note\"];
  rankdir = \"LR\";
  subgraph cluster_after {
    label=<<b>after</b>>
    subgraph cluster_afterstack {
      label=<<b>stack</b>>
      rank=\"source\";
      afterstack[
        shape=\"none\";
        label=<
          <table border=\"0\">
          <tr><td border=\"1\">main</td></tr>
          <tr><td port=\"0\">x: 42</td></tr>
          <tr><td port=\"3\">(in-flight): 42</td></tr>
          </table>
        >;
      ];
    }
  }
  subgraph cluster_before {
    label=<<b>before</b>>
    subgraph cluster_beforestack {
      label=<<b>stack</b>>
      rank=\"source\";
      beforestack[
        shape=\"none\";
        label=<
          <table border=\"0\">
          <tr><td border=\"1\">main</td></tr>
          <tr><td port=\"0\">x</td></tr>
          </table>
        >;
      ];
    }
  }
}
";
    assert_eq!(text, expected);
}

#[test]
fn a_host_that_refuses_makes_the_step_fault() {
    let mut db = Db::new();
    let main = call_program(&mut db);
    let mut stepper = start(&db, main);
    let mut kernel = Recorder::new();
    kernel.refuse = true;
    match stepper.step(&mut kernel) {
        Err(fault) => {
            assert_eq!(fault.kind, FaultKind::HostError);
            // The fault is attributed to the statement of the breakpoint.
            assert_eq!(fault.span.input_file, InputFile { index: 0 });
        }
        other => panic!("unexpected {:?}", other),
    }
    assert_eq!(stepper.machine.pc().unwrap().statement, 0);
}

#[test]
fn an_if_branches_on_a_boolean_and_rejects_anything_else() {
    let mut db = Db::new();
    let mut code = Code::new();
    let flag = code.local(None);
    let number = code.local(None);
    code.assign(flag, ExprData::BooleanLiteral(false));
    code.assign(number, ExprData::IntegerLiteral(1));
    let condition = code.var(flag);
    // 2: if flag { goto 3 } else { goto 4 }
    code.terminator(TerminatorData::If(condition, ControlPoint { index: 3 }, ControlPoint { index: 4 }));
    code.terminator(TerminatorData::Panic);
    let condition = code.var(number);
    code.terminator(TerminatorData::If(condition, ControlPoint { index: 3 }, ControlPoint { index: 3 }));
    let main = code.finish(&mut db, "main", 0);
    let mut stepper = start(&db, main);
    run(&mut stepper, 3);
    assert_eq!(
        stepper.machine.pc(),
        Some(ProgramCounter { bir: main, basic_block: ControlPoint { index: 4 }, statement: 0 })
    );
    let fault = fault(&mut stepper);
    assert_eq!(fault.kind, FaultKind::TypeMismatch);
    // The place of the condition was the tenth piece of syntax.
    assert_eq!(fault.span, FileSpan { input_file: InputFile { index: 0 }, start: 90, end: 95 });
}

#[test]
fn panic_and_error_terminators_fault() {
    let mut db = Db::new();
    let mut code = Code::new();
    code.terminator(TerminatorData::Panic);
    let main = code.finish(&mut db, "main", 0);
    let mut stepper = start(&db, main);
    assert_eq!(fault(&mut stepper).kind, FaultKind::Panic);

    let mut code = Code::new();
    code.terminator(TerminatorData::Error);
    let other = code.finish(&mut db, "other", 0);
    let mut stepper = start(&db, other);
    assert_eq!(fault(&mut stepper).kind, FaultKind::CompilationError);

    let mut code = Code::new();
    let x = code.local(None);
    code.assign(x, ExprData::Error);
    code.return_unit();
    let third = code.finish(&mut db, "third", 0);
    let mut stepper = start(&db, third);
    assert_eq!(fault(&mut stepper).kind, FaultKind::CompilationError);
}

#[test]
fn goto_and_atomic_terminators_move_to_their_block() {
    let mut db = Db::new();
    let mut code = Code::new();
    code.terminator(TerminatorData::Goto(ControlPoint { index: 2 }));
    code.terminator(TerminatorData::Panic);
    code.terminator(TerminatorData::StartAtomic(ControlPoint { index: 3 }));
    code.terminator(TerminatorData::EndAtomic(ControlPoint { index: 1 }));
    let main = code.finish(&mut db, "main", 0);
    let mut stepper = start(&db, main);
    run(&mut stepper, 3);
    assert_eq!(
        stepper.machine.pc(),
        Some(ProgramCounter { bir: main, basic_block: ControlPoint { index: 1 }, statement: 0 })
    );
}

#[test]
fn reading_a_cleared_variable_faults() {
    let mut db = Db::new();
    let mut code = Code::new();
    let x = code.local(None);
    let y = code.local(None);
    code.assign(x, ExprData::IntegerLiteral(1));
    code.statement(ActionData::Clear(x));
    code.statement(ActionData::Noop);
    let from = code.var(x);
    code.assign(y, ExprData::Give(from));
    code.return_unit();
    let main = code.finish(&mut db, "main", 0);
    let mut stepper = start(&db, main);
    run(&mut stepper, 1);
    let value = local(&stepper, 0).unwrap();
    run(&mut stepper, 2);
    assert_eq!(local(&stepper, 0), None);
    // Nothing refers to the literal any more: it has been collected.
    assert!(stepper.machine.object(value.object).is_none());
    assert!(stepper.machine.permission(value.permission).is_none());
    assert_eq!(fault(&mut stepper).kind, FaultKind::Uninitialized);
}

#[test]
fn fields_that_do_not_exist_and_things_without_fields() {
    let mut db = Db::new();
    let point = class(&mut db, "Point", &["x", "y"]);
    let z = db.intern("z");
    let mut code = Code::new();
    let p = code.local(Some(db.intern("p")));
    let q = code.local(None);
    make_point(&mut code, &mut db, point, p);
    let owner = code.var(p);
    let pz = code.place(PlaceData::Dot(owner, z));
    code.assign(q, ExprData::Give(pz));
    code.return_unit();
    let main = code.finish(&mut db, "main", 0);
    let mut stepper = start(&db, main);
    run(&mut stepper, 3);
    assert_eq!(fault(&mut stepper).kind, FaultKind::NoSuchField);

    let mut code = Code::new();
    let n = code.local(None);
    let q = code.local(None);
    code.assign(n, ExprData::IntegerLiteral(1));
    let owner = code.var(n);
    let nz = code.place(PlaceData::Dot(owner, z));
    code.assign(q, ExprData::Give(nz));
    code.return_unit();
    let other = code.finish(&mut db, "other", 0);
    let mut stepper = start(&db, other);
    run(&mut stepper, 1);
    assert_eq!(fault(&mut stepper).kind, FaultKind::TypeMismatch);
}

#[test]
fn what_is_borrowed_cannot_be_given_and_what_is_shared_cannot_be_leased() {
    let mut db = Db::new();
    let point = class(&mut db, "Point", &["x", "y"]);
    let mut code = Code::new();
    let p = code.local(Some(db.intern("p")));
    let q = code.local(None);
    let r = code.local(None);
    make_point(&mut code, &mut db, point, p);
    let from = code.var(p);
    code.assign(q, ExprData::Lease(from));
    let from = code.var(q);
    code.assign(r, ExprData::Give(from));
    code.return_unit();
    let main = code.finish(&mut db, "main", 0);
    let mut stepper = start(&db, main);
    run(&mut stepper, 4);
    assert_eq!(fault(&mut stepper).kind, FaultKind::InsufficientPermission);

    let mut code = Code::new();
    let n = code.local(None);
    let m = code.local(None);
    code.assign(n, ExprData::IntegerLiteral(1));
    let from = code.var(n);
    code.assign(m, ExprData::Lease(from));
    code.return_unit();
    let other = code.finish(&mut db, "other", 0);
    let mut stepper = start(&db, other);
    run(&mut stepper, 1);
    // A literal is shared-immutable.
    assert_eq!(kind(&stepper, local(&stepper, 0).unwrap().permission), PermissionKind::Our);
    assert_eq!(fault(&mut stepper).kind, FaultKind::InsufficientPermission);
}

#[test]
fn a_borrowed_value_can_be_returned() {
    let mut db = Db::new();
    let point = class(&mut db, "Point", &["x", "y"]);
    let mut code = Code::new();
    let p = code.local(Some(db.intern("p")));
    let q = code.local(None);
    make_point(&mut code, &mut db, point, p);
    let from = code.var(p);
    code.assign(q, ExprData::Lease(from));
    let place = code.var(q);
    code.terminator(TerminatorData::Return(place));
    let main = code.finish(&mut db, "main", 0);
    let mut stepper = start(&db, main);
    run(&mut stepper, 4);
    let lease = local(&stepper, 1).unwrap();
    let mut kernel = Recorder::new();
    match stepper.step(&mut kernel) {
        Ok(ControlFlow::Done(_, value)) => {
            assert_eq!(value, lease);
            // Its lessor, which nothing else holds any more, was kept for it.
            let lessor = stepper.machine.permission(value.permission).unwrap().lessor.unwrap();
            assert!(stepper.machine.permission(lessor).is_some());
        }
        other => panic!("unexpected {:?}", other),
    }
}

#[allow(non_snake_case)]
fn U(n: u64) -> ExprData {
    ExprData::IntegerLiteral(n)
}

#[allow(non_snake_case)]
fn I(n: i64) -> ExprData {
    ExprData::SignedIntegerLiteral(n)
}

#[allow(non_snake_case)]
fn B(b: bool) -> ExprData {
    ExprData::BooleanLiteral(b)
}

#[allow(non_snake_case)]
fn F(bits: u64) -> ExprData {
    ExprData::FloatLiteral(bits)
}

fn binary(db: &mut Db, left: ExprData, op: Op, right: ExprData) -> (Db, Bir) {
    let mut fresh = Db::new();
    std::mem::swap(&mut fresh, db);
    let mut code = Code::new();
    let a = code.local(None);
    let b = code.local(None);
    let c = code.local(None);
    code.assign(a, left);
    code.assign(b, right);
    let pa = code.var(a);
    let pb = code.var(b);
    code.assign(c, ExprData::Op(pa, op, pb));
    code.return_unit();
    let main = code.finish(&mut fresh, "main", 0);
    (fresh, main)
}

fn result_of(left: ExprData, op: Op, right: ExprData) -> Result<String, FaultKind> {
    let mut db = Db::new();
    let (db, main) = binary(&mut db, left, op, right);
    let mut stepper = start(&db, main);
    run(&mut stepper, 2);
    let mut kernel = Recorder::new();
    match stepper.step(&mut kernel) {
        Ok(ControlFlow::Next) => {
            let value = local(&stepper, 2).unwrap();
            assert_eq!(kind(&stepper, value.permission), PermissionKind::Our);
            Ok(format!("{:?}", stepper.machine.object(value.object).unwrap()))
        }
        Err(fault) => Err(fault.kind),
        other => panic!("unexpected {:?}", other),
    }
}

#[test]
fn operators_on_integers() {
    assert_eq!(result_of(U(20), Op::Plus, U(22)), Ok("Uint(42)".to_string()));
    assert_eq!(result_of(U(20), Op::Minus, U(22)), Err(FaultKind::Overflow));
    assert_eq!(result_of(U(u64::MAX), Op::Plus, U(1)), Err(FaultKind::Overflow));
    assert_eq!(result_of(U(6), Op::Times, U(7)), Ok("Uint(42)".to_string()));
    assert_eq!(result_of(U(85), Op::DividedBy, U(2)), Ok("Uint(42)".to_string()));
    assert_eq!(result_of(U(85), Op::DividedBy, U(0)), Err(FaultKind::DivideByZero));
    assert_eq!(result_of(U(1), Op::LessThan, U(2)), Ok("Bool(true)".to_string()));
    assert_eq!(result_of(U(2), Op::LessEqual, U(2)), Ok("Bool(true)".to_string()));
    assert_eq!(result_of(U(1), Op::GreaterThan, U(2)), Ok("Bool(false)".to_string()));
    assert_eq!(result_of(U(1), Op::GreaterEqual, U(2)), Ok("Bool(false)".to_string()));
    assert_eq!(result_of(U(1), Op::EqualEqual, U(1)), Ok("Bool(true)".to_string()));
    assert_eq!(result_of(I(-7), Op::DividedBy, I(2)), Ok("Int(-3)".to_string()));
    assert_eq!(result_of(I(i64::MIN), Op::DividedBy, I(-1)), Err(FaultKind::Overflow));
    assert_eq!(result_of(I(i64::MIN), Op::Minus, I(1)), Err(FaultKind::Overflow));
    assert_eq!(result_of(I(-2), Op::Times, I(21)), Ok("Int(-42)".to_string()));
    assert_eq!(result_of(I(1), Op::DividedBy, I(0)), Err(FaultKind::DivideByZero));
}

#[test]
fn operators_on_other_kinds() {
    assert_eq!(result_of(B(true), Op::EqualEqual, B(false)), Ok("Bool(false)".to_string()));
    assert_eq!(result_of(B(true), Op::Plus, B(false)), Err(FaultKind::TypeMismatch));
    assert_eq!(result_of(ExprData::Unit, Op::EqualEqual, ExprData::Unit), Ok("Bool(true)".to_string()));
    assert_eq!(result_of(U(1), Op::Plus, I(1)), Err(FaultKind::TypeMismatch));
    assert_eq!(result_of(U(1), Op::EqualEqual, B(true)), Err(FaultKind::TypeMismatch));
    assert_eq!(result_of(F(0), Op::Plus, F(0)), Err(FaultKind::TypeMismatch));
}

#[test]
fn strings_compare_and_concatenate() {
    let mut db = Db::new();
    let hello = db.intern("hello");
    let mut code = Code::new();
    let a = code.local(None);
    let b = code.local(None);
    let n = code.local(None);
    let same = code.local(None);
    let all = code.local(None);
    code.assign(a, ExprData::StringLiteral(hello));
    code.assign(b, ExprData::StringLiteral(hello));
    code.assign(n, ExprData::SignedIntegerLiteral(-12));
    let pa = code.var(a);
    let pb = code.var(b);
    code.assign(same, ExprData::Op(pa, Op::EqualEqual, pb));
    let pa = code.var(a);
    let pn = code.var(n);
    let ps = code.var(same);
    code.assign(all, ExprData::Concatenate(vec![pa, pn, ps]));
    code.return_unit();
    let main = code.finish(&mut db, "main", 0);
    let mut stepper = start(&db, main);
    run(&mut stepper, 5);
    let same = local(&stepper, 3).unwrap();
    assert!(matches!(stepper.machine.object(same.object), Some(ObjectData::Bool(true))));
    let all = local(&stepper, 4).unwrap();
    match stepper.machine.object(all.object) {
        Some(ObjectData::String(s)) => assert_eq!(s, "hello-12true"),
        other => panic!("unexpected {:?}", other),
    }
}

#[test]
fn unary_minus_negates_signed_integers() {
    let mut db = Db::new();
    let mut code = Code::new();
    let a = code.local(None);
    let b = code.local(None);
    let c = code.local(None);
    code.assign(a, ExprData::SignedIntegerLiteral(5));
    let pa = code.var(a);
    code.assign(b, ExprData::Unary(Op::Minus, pa));
    let pa = code.var(a);
    code.assign(c, ExprData::Unary(Op::Plus, pa));
    code.return_unit();
    let main = code.finish(&mut db, "main", 0);
    let mut stepper = start(&db, main);
    run(&mut stepper, 2);
    let b = local(&stepper, 1).unwrap();
    assert!(matches!(stepper.machine.object(b.object), Some(ObjectData::Int(-5))));
    assert_eq!(fault(&mut stepper).kind, FaultKind::TypeMismatch);
}

#[test]
fn a_tuple_takes_what_it_is_made_of() {
    let mut db = Db::new();
    let point = class(&mut db, "Point", &["x", "y"]);
    let mut code = Code::new();
    let p = code.local(Some(db.intern("p")));
    let t = code.local(None);
    make_point(&mut code, &mut db, point, p);
    let one = code.var(LocalVariable { index: 2 });
    let _ = one;
    let from = code.var(p);
    code.assign(t, ExprData::Tuple(vec![from]));
    code.return_unit();
    let main = code.finish(&mut db, "main", 0);
    let mut stepper = start(&db, main);
    run(&mut stepper, 3);
    let point = local(&stepper, 0).unwrap();
    run(&mut stepper, 1);
    assert_eq!(local(&stepper, 0), None);
    let tuple = local(&stepper, 1).unwrap();
    assert_eq!(kind(&stepper, tuple.permission), PermissionKind::My);
    assert_eq!(stepper.machine.slot_count(tuple.object), 1);
    assert_eq!(stepper.machine.object_slot(tuple.object, 0), Some(point));
}

#[test]
fn calls_check_what_they_are_given() {
    let mut db = Db::new();
    let point = class(&mut db, "Point", &["x", "y"]);
    let y = db.intern("y");
    // Too few arguments.
    let mut code = Code::new();
    let p = code.local(None);
    let a = code.local(None);
    code.assign(a, ExprData::IntegerLiteral(1));
    let callee = code.place(PlaceData::Class(point));
    let pa = code.var(a);
    code.call(p, callee, vec![pa]);
    code.return_unit();
    let main = code.finish(&mut db, "main", 0);
    let mut stepper = start(&db, main);
    run(&mut stepper, 1);
    assert_eq!(fault(&mut stepper).kind, FaultKind::TypeMismatch);
    // Nothing was given away.
    assert!(local(&stepper, 1).is_some());

    // A label that names another parameter.
    let mut code = Code::new();
    let p = code.local(None);
    let a = code.local(None);
    let b = code.local(None);
    code.assign(a, ExprData::IntegerLiteral(1));
    code.assign(b, ExprData::IntegerLiteral(2));
    code.tables.names.push(NameData { word: y });
    let callee = code.place(PlaceData::Class(point));
    let pa = code.var(a);
    let pb = code.var(b);
    let target = code.to(p);
    let next = code.next();
    code.terminator(TerminatorData::Assign(
        target,
        TerminatorExpr::Call {
            function: callee,
            arguments: vec![pa, pb],
            labels: vec![Some(Name { index: 0 }), None],
        },
        next,
    ));
    code.return_unit();
    let other = code.finish(&mut db, "other", 0);
    let mut stepper = start(&db, other);
    run(&mut stepper, 2);
    assert_eq!(fault(&mut stepper).kind, FaultKind::TypeMismatch);

    // Something that cannot be called.
    let mut code = Code::new();
    let p = code.local(None);
    let a = code.local(None);
    code.assign(a, ExprData::IntegerLiteral(1));
    let callee = code.var(a);
    code.call(p, callee, vec![]);
    code.return_unit();
    let third = code.finish(&mut db, "third", 0);
    let mut stepper = start(&db, third);
    run(&mut stepper, 1);
    assert_eq!(fault(&mut stepper).kind, FaultKind::TypeMismatch);
}

#[test]
fn labels_that_match_are_accepted() {
    let mut db = Db::new();
    let point = class(&mut db, "Point", &["x", "y"]);
    let x = db.intern("x");
    let y = db.intern("y");
    let mut code = Code::new();
    let p = code.local(None);
    let a = code.local(None);
    let b = code.local(None);
    code.assign(a, ExprData::IntegerLiteral(1));
    code.assign(b, ExprData::IntegerLiteral(2));
    code.tables.names.push(NameData { word: x });
    code.tables.names.push(NameData { word: y });
    let callee = code.place(PlaceData::Class(point));
    let pa = code.var(a);
    let pb = code.var(b);
    let target = code.to(p);
    let next = code.next();
    code.terminator(TerminatorData::Assign(
        target,
        TerminatorExpr::Call {
            function: callee,
            arguments: vec![pa, pb],
            labels: vec![Some(Name { index: 0 }), Some(Name { index: 1 })],
        },
        next,
    ));
    code.return_unit();
    let main = code.finish(&mut db, "main", 0);
    let mut stepper = start(&db, main);
    run(&mut stepper, 3);
    let p = local(&stepper, 0).unwrap();
    assert!(matches!(stepper.machine.object(p.object), Some(ObjectData::Instance(_))));
}

#[test]
fn printing_is_awaited_and_the_host_answers() {
    let mut db = Db::new();
    let mut code = Code::new();
    let text = code.local(Some(db.intern("text")));
    let thunk = code.local(None);
    let done = code.local(Some(db.intern("done")));
    let hello = db.intern("hello");
    code.assign(text, ExprData::StringLiteral(hello));
    let print = code.place(PlaceData::Intrinsic(Intrinsic::Print));
    let argument = code.var(text);
    code.call(thunk, print, vec![argument]);
    let awaited = code.var(thunk);
    let target = code.to(done);
    let next = code.next();
    code.terminator(TerminatorData::Assign(target, TerminatorExpr::Await(awaited), next));
    code.return_unit();
    let main = code.finish(&mut db, "main", 0);
    let mut stepper = start(&db, main);
    run(&mut stepper, 2);
    let held = local(&stepper, 1).unwrap();
    assert_eq!(kind(&stepper, held.permission), PermissionKind::My);
    assert!(matches!(stepper.machine.object(held.object), Some(ObjectData::Thunk(_))));
    let mut kernel = Recorder::new();
    let thunk = match stepper.step(&mut kernel) {
        Ok(ControlFlow::Await(thunk)) => thunk,
        other => panic!("unexpected {:?}", other),
    };
    assert_eq!(thunk.intrinsic, Intrinsic::Print);
    assert_eq!(thunk.arguments.len(), 1);
    let argument = thunk.arguments[0].unwrap();
    // What the thunk holds survives the collection that follows the step.
    match stepper.machine.object(argument.object) {
        Some(ObjectData::String(s)) => assert_eq!(s, "hello"),
        other => panic!("unexpected {:?}", other),
    }
    // The thunk was moved out of its variable, and the frame still waits.
    assert_eq!(local(&stepper, 1), None);
    assert!(stepper.is_awaiting());
    assert_eq!(stepper.machine.pc().unwrap().basic_block, ControlPoint { index: 2 });
    let unit = stepper.machine.new_value(ObjectData::Unit, dada_execute::model::PermissionData::our());
    assert!(stepper.is_unit(unit));
    assert_eq!(stepper.awaken(unit), Ok(()));
    assert!(!stepper.is_awaiting());
    assert_eq!(local(&stepper, 2), Some(unit));
    assert_eq!(
        stepper.machine.pc(),
        Some(ProgramCounter { bir: main, basic_block: ControlPoint { index: 3 }, statement: 0 })
    );
}

#[test]
fn awaiting_a_function_runs_it() {
    let mut db = Db::new();
    let mut callee = Code::new();
    let n = callee.local(Some(db.intern("n")));
    let place = callee.var(n);
    callee.terminator(TerminatorData::Return(place));
    let f_code = callee.finish(&mut db, "f", 1);
    let f = function(&mut db, "f", Effect::Async, f_code);

    let mut code = Code::new();
    let seven = code.local(None);
    let thunk = code.local(None);
    let result = code.local(None);
    code.assign(seven, ExprData::IntegerLiteral(7));
    let callee = code.place(PlaceData::Function(f));
    let argument = code.var(seven);
    code.call(thunk, callee, vec![argument]);
    let awaited = code.var(thunk);
    let target = code.to(result);
    let next = code.next();
    code.terminator(TerminatorData::Assign(target, TerminatorExpr::Await(awaited), next));
    code.return_unit();
    let main = code.finish(&mut db, "main", 0);
    let mut stepper = start(&db, main);
    run(&mut stepper, 2);
    // Calling made a thunk and pushed nothing.
    assert_eq!(stepper.machine.stack_len(), 1);
    run(&mut stepper, 1);
    assert_eq!(stepper.machine.stack_len(), 2);
    run(&mut stepper, 1);
    assert_eq!(stepper.machine.stack_len(), 1);
    let result = local(&stepper, 2).unwrap();
    assert!(matches!(stepper.machine.object(result.object), Some(ObjectData::Uint(7))));

    // A thunk that is shared can be awaited once: awaiting takes its
    // arguments out of it.
    let mut code = Code::new();
    let seven = code.local(None);
    let thunk = code.local(None);
    let alias = code.local(None);
    let result = code.local(None);
    code.assign(seven, ExprData::IntegerLiteral(7));
    let callee = code.place(PlaceData::Function(f));
    let argument = code.var(seven);
    code.call(thunk, callee, vec![argument]);
    let from = code.var(thunk);
    code.assign(alias, ExprData::Share(from));
    let awaited = code.var(thunk);
    let target = code.to(result);
    let next = code.next();
    code.terminator(TerminatorData::Assign(target, TerminatorExpr::Await(awaited), next));
    code.return_unit();
    let shared = code.finish(&mut db, "shared", 0);
    let mut stepper = start(&db, shared);
    run(&mut stepper, 4);
    assert_eq!(stepper.machine.stack_len(), 2);
    let alias = stepper.machine.frame(0).variables[2].unwrap();
    assert!(matches!(stepper.machine.object(alias.object), Some(ObjectData::Thunk(_))));
    assert_eq!(stepper.machine.object_slot(alias.object, 0), None);
    assert!(local(&stepper, 0).is_some());

    // Awaiting what is no thunk is a mismatch.
    let mut code = Code::new();
    let seven = code.local(None);
    let result = code.local(None);
    code.assign(seven, ExprData::IntegerLiteral(7));
    let awaited = code.var(seven);
    let target = code.to(result);
    let next = code.next();
    code.terminator(TerminatorData::Assign(target, TerminatorExpr::Await(awaited), next));
    code.return_unit();
    let other = code.finish(&mut db, "other", 0);
    let mut stepper = start(&db, other);
    run(&mut stepper, 1);
    assert_eq!(fault(&mut stepper).kind, FaultKind::TypeMismatch);
}

#[test]
fn writing_through_what_is_shared_is_refused() {
    let mut db = Db::new();
    let point = class(&mut db, "Point", &["x", "y"]);
    let x = db.intern("x");
    let mut code = Code::new();
    let p = code.local(Some(db.intern("p")));
    let q = code.local(Some(db.intern("q")));
    make_point(&mut code, &mut db, point, p);
    let from = code.var(p);
    code.assign(q, ExprData::Share(from));
    let nine = code.local(None);
    code.assign(nine, ExprData::IntegerLiteral(9));
    let owner = code.var(q);
    let qx = code.target(TargetPlaceData::Dot(owner, x));
    let given = code.var(nine);
    let give = code.expr(ExprData::Give(given));
    code.statement(ActionData::AssignExpr(qx, give));
    code.return_unit();
    let main = code.finish(&mut db, "main", 0);
    let mut stepper = start(&db, main);
    run(&mut stepper, 5);
    assert_eq!(fault(&mut stepper).kind, FaultKind::InsufficientPermission);
}

#[test]
fn reading_through_the_lessor_ends_the_lease_and_sharing_from_a_lease_borrows() {
    let mut db = Db::new();
    let point = class(&mut db, "Point", &["x", "y"]);
    let x = db.intern("x");
    let mut code = Code::new();
    let p = code.local(Some(db.intern("p")));
    let q = code.local(Some(db.intern("q")));
    let s = code.local(Some(db.intern("s")));
    let sum = code.local(None);
    make_point(&mut code, &mut db, point, p);
    let from = code.var(p);
    code.assign(q, ExprData::Lease(from));
    let from = code.var(q);
    code.assign(s, ExprData::Share(from));
    let owner = code.var(p);
    let px = code.place(PlaceData::Dot(owner, x));
    let owner = code.var(p);
    let px2 = code.place(PlaceData::Dot(owner, x));
    code.assign(sum, ExprData::Op(px, Op::Plus, px2));
    code.return_unit();
    let main = code.finish(&mut db, "main", 0);
    let mut stepper = start(&db, main);
    run(&mut stepper, 5);
    let q = local(&stepper, 1).unwrap();
    let s = local(&stepper, 2).unwrap();
    assert_eq!(kind(&stepper, s.permission), PermissionKind::Shared);
    assert_eq!(stepper.machine.permission(s.permission).unwrap().lessor, Some(q.permission));
    assert_eq!(stepper.machine.permission(q.permission).unwrap().tenant, Some(s.permission));
    assert_eq!(s.object, q.object);
    run(&mut stepper, 1);
    let sum = local(&stepper, 3).unwrap();
    assert!(matches!(stepper.machine.object(sum.object), Some(ObjectData::Uint(2))));
    // Reading p.x went through the permission of p, which ended the lease
    // q and, with it, the share s that was borrowed from q.
    assert!(stepper.machine.permission(q.permission).unwrap().canceled);
    assert!(stepper.machine.permission(s.permission).unwrap().canceled);
    // The cancellation is attributed to the statement that read.
    assert_eq!(
        stepper.machine.permission(q.permission).unwrap().canceled_at,
        Some(ProgramCounter { bir: main, basic_block: ControlPoint { index: 3 }, statement: 2 })
    );
}

#[test]
fn what_dies_with_a_frame_is_canceled_in_the_callee() {
    let mut db = Db::new();
    let point = class(&mut db, "Point", &["x", "y"]);
    // f makes a point, leases it, and returns the lease.
    let mut callee = Code::new();
    let p = callee.local(Some(db.intern("p")));
    let q = callee.local(Some(db.intern("q")));
    make_point(&mut callee, &mut db, point, p);
    let from = callee.var(p);
    callee.assign(q, ExprData::Lease(from));
    let place = callee.var(q);
    callee.terminator(TerminatorData::Return(place));
    let f_code = callee.finish(&mut db, "f", 0);
    let f = function(&mut db, "f", Effect::Default, f_code);

    let mut code = Code::new();
    let got = code.local(Some(db.intern("got")));
    let callee = code.place(PlaceData::Function(f));
    code.call(got, callee, vec![]);
    code.return_unit();
    let main = code.finish(&mut db, "main", 0);
    let mut stepper = start(&db, main);
    run(&mut stepper, 6);
    let got = local(&stepper, 0).unwrap();
    let data = stepper.machine.permission(got.permission).unwrap();
    assert_eq!(data.kind, PermissionKind::Leased);
    assert!(data.canceled);
    // The lease died when the frame of f was cleared: at the return of f.
    assert_eq!(
        data.canceled_at,
        Some(ProgramCounter { bir: f_code, basic_block: ControlPoint { index: 3 }, statement: 1 })
    );
}

#[test]
fn the_collector_keeps_what_is_reachable_and_nothing_else() {
    let mut db = Db::new();
    let point = class(&mut db, "Point", &["x", "y"]);
    let mut code = Code::new();
    let p = code.local(Some(db.intern("p")));
    make_point(&mut code, &mut db, point, p);
    code.return_unit();
    let main = code.finish(&mut db, "main", 0);
    let mut stepper = start(&db, main);
    run(&mut stepper, 3);
    // Objects: 1, 2, the class, the instance.  The class was only needed for
    // the call.
    assert_eq!(stepper.machine.object_count(), 4);
    assert!(stepper.machine.object(Object { index: 0 }).is_some());
    assert!(stepper.machine.object(Object { index: 1 }).is_some());
    assert!(stepper.machine.object(Object { index: 2 }).is_none());
    assert!(stepper.machine.object(Object { index: 3 }).is_some());
    assert!(stepper.machine.permission(Permission { index: 2 }).is_none());
    let p = local(&stepper, 0).unwrap();
    assert_eq!(p.object, Object { index: 3 });
    // Pinned values are kept too.
    let loose = stepper.machine.new_value(ObjectData::Uint(1), dada_execute::model::PermissionData::my());
    let kept = stepper.machine.new_value(ObjectData::Uint(2), dada_execute::model::PermissionData::my());
    stepper.machine.gc(&vec![kept]);
    assert!(stepper.machine.object(loose.object).is_none());
    assert!(stepper.machine.permission(loose.permission).is_none());
    assert!(stepper.machine.object(kept.object).is_some());
    assert!(stepper.machine.permission(kept.permission).is_some());
    assert!(stepper.machine.object(p.object).is_some());
    // Handles are not used twice.
    let next = stepper.machine.new_value(ObjectData::Unit, dada_execute::model::PermissionData::our());
    assert_eq!(next.object, Object { index: 6 });
}

#[test]
fn the_collector_keeps_lessors_of_what_is_live() {
    let mut machine = Machine::new();
    let db = Db::new();
    let owner = machine.new_value(ObjectData::Uint(1), dada_execute::model::PermissionData::my());
    let lease = machine.borrow_value(owner, PermissionKind::Leased);
    let sublease = machine.borrow_value(lease, PermissionKind::Leased);
    let _ = db;
    machine.gc(&vec![sublease]);
    assert!(machine.permission(sublease.permission).is_some());
    assert!(machine.permission(lease.permission).is_some());
    assert!(machine.permission(owner.permission).is_some());
    assert_eq!(machine.permission(owner.permission).unwrap().tenant, Some(lease.permission));
    machine.gc(&vec![Value { object: owner.object, permission: lease.permission }]);
    assert!(machine.permission(sublease.permission).is_none());
    // A tenant that was collected is no tenant any more.
    assert_eq!(machine.permission(lease.permission).unwrap().tenant, None);
    assert!(machine.permission(owner.permission).is_some());
}
