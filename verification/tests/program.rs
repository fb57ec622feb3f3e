use dada_execute::bir::{
    ActionData, Atomic, Bir, BirData, BirRecord, ControlPoint, ControlPointData, ExprData, LocalVariable,
    LocalVariableData, Origins, PlaceData, StatementData, SyntaxExpr, SyntaxTree, Tables, TerminatorData,
    TerminatorExpr, TargetPlace, TargetPlaceData, Place,
};
use dada_execute::class::{Class, ClassData, Signature, SyntaxName};
use dada_execute::db::{str_eq, Db};
use dada_execute::function::{Effect, Function, FunctionData};
use dada_execute::machine::{Frame, Machine, ObjectData};
use dada_execute::model::{Permission, PermissionData, PermissionKind, ProgramCounter};
use dada_execute::span::{FileSpan, InputFile, Span};
use dada_execute::word::Word;

fn tables(control_points: Vec<ControlPointData>) -> Tables {
    Tables {
        local_variables: vec![
            LocalVariableData { name: None, atomic: Atomic::No },
            LocalVariableData { name: None, atomic: Atomic::Yes },
            LocalVariableData { name: None, atomic: Atomic::No },
        ],
        control_points,
        exprs: vec![ExprData::Unit],
        places: vec![PlaceData::LocalVariable(LocalVariable { index: 0 })],
        target_places: vec![TargetPlaceData::LocalVariable(LocalVariable { index: 0 })],
        names: vec![],
    }
}

fn noop(next: usize) -> ControlPointData {
    ControlPointData::Statement(StatementData { action: ActionData::Noop, next: ControlPoint { index: next } })
}

fn cp(index: usize) -> ControlPoint {
    ControlPoint { index }
}

fn record(tables: Tables, start: usize) -> BirRecord {
    let n = tables.control_points.len();
    BirRecord {
        input_file: InputFile { index: 3 },
        function_name: Word { index: 0 },
        syntax_tree: SyntaxTree { spans: vec![Span { start: 4, end: 9 }, Span { start: 10, end: 12 }] },
        origins: Origins {
            control_points: vec![SyntaxExpr { index: 0 }; n],
            exprs: vec![SyntaxExpr { index: 0 }],
            places: vec![SyntaxExpr { index: 1 }],
            target_places: vec![SyntaxExpr { index: 1 }],
        },
        data: BirData::new(tables, 2, cp(start)),
    }
}

#[test]
fn successors_of_terminators_and_statements() {
    let p = Place { index: 0 };
    let t = TargetPlace { index: 0 };
    assert_eq!(TerminatorData::Goto(cp(4)).successors(), vec![cp(4)]);
    assert_eq!(TerminatorData::If(p, cp(1), cp(2)).successors(), vec![cp(1), cp(2)]);
    assert_eq!(TerminatorData::StartAtomic(cp(5)).successors(), vec![cp(5)]);
    assert_eq!(TerminatorData::EndAtomic(cp(6)).successors(), vec![cp(6)]);
    assert_eq!(TerminatorData::Return(p).successors(), vec![]);
    assert_eq!(TerminatorData::Assign(t, TerminatorExpr::Await(p), cp(7)).successors(), vec![cp(7)]);
    assert_eq!(TerminatorData::Error.successors(), vec![]);
    assert_eq!(TerminatorData::Panic.successors(), vec![]);
    let data = BirData::new(
        tables(vec![noop(1), ControlPointData::Terminator(TerminatorData::If(p, cp(0), cp(1)))]),
        0,
        cp(0),
    );
    assert_eq!(cp(0).successors(&data), vec![cp(1)]);
    assert_eq!(cp(1).successors(&data), vec![cp(0), cp(1)]);
}

#[test]
fn the_control_points_that_control_can_reach() {
    let p = Place { index: 0 };
    // 0 is not reachable from 2; 5 is reachable only through the branch.
    let data = BirData::new(
        tables(vec![
            noop(1),
            ControlPointData::Terminator(TerminatorData::Goto(cp(2))),
            noop(4),
            ControlPointData::Terminator(TerminatorData::Panic),
            ControlPointData::Terminator(TerminatorData::If(p, cp(2), cp(5))),
            ControlPointData::Terminator(TerminatorData::Return(p)),
            noop(6),
        ]),
        0,
        cp(2),
    );
    assert_eq!(data.control_points(), vec![cp(2), cp(4), cp(5)]);
    let data = BirData::new(
        tables(vec![noop(1), noop(2), ControlPointData::Terminator(TerminatorData::Goto(cp(0)))]),
        0,
        cp(1),
    );
    assert_eq!(data.control_points(), vec![cp(0), cp(1), cp(2)]);
    // A successor that is no control point is not reached, and neither is a
    // start point that is none.
    let data = BirData::new(tables(vec![noop(9)]), 0, cp(0));
    assert_eq!(data.control_points(), vec![cp(0)]);
    let data = BirData::new(tables(vec![noop(0)]), 0, cp(1));
    assert_eq!(data.control_points(), vec![]);
}

#[test]
fn getters_of_the_code() {
    let data = BirData::new(tables(vec![noop(0)]), 2, cp(0));
    assert_eq!(data.num_parameters(), 2);
    assert_eq!(data.parameters(), vec![LocalVariable { index: 0 }, LocalVariable { index: 1 }]);
    assert_eq!(data.max_local_variable(), LocalVariable { index: 3 });
    assert_eq!(data.tables().control_points.len(), 1);
    assert_eq!(data.start_point, cp(0));
    let empty = BirData::new(tables(vec![]), 0, cp(0));
    assert_eq!(empty.parameters(), vec![]);
}

#[test]
fn blocks_are_located_by_counting_statements() {
    let t = tables(vec![
        noop(1),
        noop(2),
        ControlPointData::Terminator(TerminatorData::Panic),
        noop(3),
    ]);
    assert_eq!(t.locate(cp(0), 0), Some(cp(0)));
    assert_eq!(t.locate(cp(0), 2), Some(cp(2)));
    assert_eq!(t.locate(cp(0), 3), None);
    assert_eq!(t.locate(cp(1), 1), Some(cp(2)));
    assert_eq!(t.locate(cp(3), 1000), Some(cp(3)));
    assert_eq!(t.locate(cp(4), 0), None);
    assert!(!t.validate_blocks());
    let t = tables(vec![noop(1), ControlPointData::Terminator(TerminatorData::Panic)]);
    assert!(t.validate_blocks());
}

fn program() -> Db {
    let mut db = Db::new();
    db.intern("main");
    db.intern("Point");
    db.intern("x");
    db.classes.push(ClassData {
        name: Word { index: 1 },
        input_file: InputFile { index: 3 },
        signature_syntax: Signature {
            name: SyntaxName { index: 1 },
            spans: vec![Span { start: 0, end: 5 }, Span { start: 6, end: 11 }],
        },
        span: Span { start: 0, end: 40 },
        fields: vec![Word { index: 2 }],
    });
    db.birs.push(record(tables(vec![noop(1), ControlPointData::Terminator(TerminatorData::Panic)]), 0));
    db.functions.push(FunctionData { name: Word { index: 0 }, effect: Effect::Default, bir: Bir { index: 0 } });
    db
}

#[test]
fn what_the_program_says_of_its_classes_and_code() {
    let db = program();
    let point = Class { index: 0 };
    assert_eq!(point.name_span(&db), Span { start: 6, end: 11 });
    assert_eq!(point.input_file(&db), InputFile { index: 3 });
    assert_eq!(point.name(&db).as_str(&db), "Point");
    assert_eq!(Function { index: 0 }.name(&db), Word { index: 0 });
    let bir = Bir { index: 0 };
    assert_eq!(bir.input_file(&db), InputFile { index: 3 });
    assert_eq!(
        bir.span_of(&db, SyntaxExpr { index: 1 }),
        FileSpan { input_file: InputFile { index: 3 }, start: 10, end: 12 }
    );
    assert_eq!(bir.get(&db).data.num_parameters, 2);
    let code = bir.get(&db);
    assert_eq!(code.place_span(Place { index: 0 }), FileSpan { input_file: InputFile { index: 3 }, start: 10, end: 12 });
    assert_eq!(
        code.point_span(cp(1)),
        FileSpan { input_file: InputFile { index: 3 }, start: 4, end: 9 }
    );
    assert_eq!(Span { start: 1, end: 2 }.in_file(InputFile { index: 9 }), FileSpan {
        input_file: InputFile { index: 9 },
        start: 1,
        end: 2,
    });
}

#[test]
fn words_are_interned_once() {
    let mut db = Db::new();
    let a = db.intern("point");
    let b = db.intern("x");
    let c = db.intern("point");
    assert_eq!(a, c);
    assert_ne!(a, b);
    assert_eq!(a.as_str(&db), "point");
    assert_eq!(db.words.len(), 2);
    assert_eq!(db.lookup("x"), Some(b));
    assert_eq!(db.lookup("y"), None);
    assert_eq!(db.lookup(""), None);
    assert!(str_eq("héllo", "héllo"));
    assert!(!str_eq("hello", "hellp"));
    assert!(!str_eq("hello", "hell"));
    assert!(str_eq("", ""));
}

#[test]
fn a_well_formed_program_is_recognized() {
    assert!(Db::new().validate());
    assert!(program().validate());
    let mut db = program();
    db.words.push("x".to_string());
    assert!(!db.validate());
    let mut db = program();
    db.classes[0].fields.push(Word { index: 7 });
    assert!(!db.validate());
    let mut db = program();
    db.classes[0].signature_syntax.name = SyntaxName { index: 2 };
    assert!(!db.validate());
    let mut db = program();
    db.functions[0].bir = Bir { index: 1 };
    assert!(!db.validate());
    // A block that never ends.
    let mut db = program();
    db.birs[0].data.tables.control_points[0] = noop(0);
    assert!(!db.validate());
    // A successor that is no control point.
    let mut db = program();
    db.birs[0].data.tables.control_points[1] = ControlPointData::Terminator(TerminatorData::Goto(cp(2)));
    assert!(!db.validate());
    // A field of a place that does not stand before it.
    let mut db = program();
    db.birs[0].data.tables.places[0] = PlaceData::Dot(Place { index: 0 }, Word { index: 2 });
    assert!(!db.validate());
    // More parameters than variables.
    let mut db = program();
    db.birs[0].data.num_parameters = 4;
    assert!(!db.validate());
    // A side table that is too short.
    let mut db = program();
    db.birs[0].origins.places.pop();
    assert!(!db.validate());
    // A breakpoint that names an expression that is not there.
    let mut db = program();
    db.birs[0].data.tables.control_points[0] = ControlPointData::Statement(StatementData {
        action: ActionData::BreakpointEnd(InputFile { index: 0 }, 0, SyntaxExpr { index: 2 }, None),
        next: cp(1),
    });
    assert!(!db.validate());
    let mut db = program();
    db.birs[0].data.tables.exprs.push(ExprData::Tuple(vec![Place { index: 1 }]));
    db.birs[0].origins.exprs.push(SyntaxExpr { index: 0 });
    assert!(!db.validate());
}

#[test]
fn a_well_formed_machine_is_recognized() {
    let db = program();
    let mut machine = Machine::new();
    assert!(machine.validate(&db));
    machine.push_frame(Frame::for_call(&db, Bir { index: 0 }, &vec![]));
    assert!(machine.validate(&db));
    assert_eq!(machine.frame(0).variables.len(), 3);
    // Two frames: the lower one would have to wait at a call.
    machine.push_frame(Frame::for_call(&db, Bir { index: 0 }, &vec![]));
    assert!(!machine.validate(&db));
    machine.pop_frame();
    machine.set_pc(ProgramCounter { bir: Bir { index: 0 }, basic_block: cp(0), statement: 1 });
    assert!(machine.validate(&db));
    machine.set_pc(ProgramCounter { bir: Bir { index: 0 }, basic_block: cp(0), statement: 2 });
    assert!(!machine.validate(&db));
    machine.set_pc(ProgramCounter { bir: Bir { index: 1 }, basic_block: cp(0), statement: 0 });
    assert!(!machine.validate(&db));
}

#[test]
fn emptying_an_object_uninitializes_its_slots() {
    let mut machine = Machine::new();
    let a = machine.new_value(ObjectData::Uint(1), PermissionData::our());
    let tuple = machine.new_value(
        ObjectData::Tuple(dada_execute::machine::Tuple { fields: vec![Some(a), None, Some(a)] }),
        PermissionData::my(),
    );
    assert_eq!(machine.object_slot(tuple.object, 2), Some(a));
    machine.empty_slots(tuple.object);
    assert_eq!(machine.slot_count(tuple.object), 3);
    assert_eq!(machine.object_slot(tuple.object, 0), None);
    assert_eq!(machine.object_slot(tuple.object, 2), None);
    // What has no slots stays as it is.
    machine.empty_slots(a.object);
    assert!(matches!(machine.object(a.object), Some(ObjectData::Uint(1))));
}

#[test]
fn dangling_values_are_recognized() {
    let db = program();
    let mut machine = Machine::new();
    assert!(machine.validate_held());
    let value = machine.new_value(ObjectData::Unit, PermissionData::our());
    machine.push_frame(Frame::for_call(&db, Bir { index: 0 }, &vec![Some(value)]));
    assert!(machine.validate_held());
    machine.gc(&vec![]);
    assert!(machine.validate_held());
    // A value whose permission was never allocated.
    machine.set_in_flight(Some(dada_execute::model::Value {
        object: value.object,
        permission: Permission { index: 9 },
    }));
    assert!(!machine.validate_held());
    machine.set_in_flight(None);
    assert!(machine.validate_held());
    // A tuple that holds what is gone.
    let loose = machine.new_value(ObjectData::Unit, PermissionData::our());
    let tuple = machine.new_value(
        ObjectData::Tuple(dada_execute::machine::Tuple { fields: vec![Some(loose), None] }),
        PermissionData::my(),
    );
    assert!(machine.validate_held());
    machine.sweep(&vec![true, false, true], &vec![true, true, true]);
    assert!(machine.object(tuple.object).is_some());
    assert!(!machine.validate_held());
}

#[test]
fn well_formed_links_are_recognized() {
    let mut machine = Machine::new();
    assert!(machine.validate_links());
    let owner = machine.new_value(ObjectData::Unit, PermissionData::my());
    let lease = machine.borrow_value(owner, PermissionKind::Leased);
    assert!(machine.validate_links());
    // A tenant that does not name its lessor.
    let data = machine.permission(lease.permission).unwrap();
    machine.set_permission(lease.permission, PermissionData { lessor: None, ..data });
    assert!(!machine.validate_links());
    machine.set_permission(lease.permission, data);
    assert!(machine.validate_links());
    // A lessor that was made later.
    machine.set_permission(owner.permission, PermissionData {
        lessor: Some(Permission { index: 1 }),
        ..PermissionData::my()
    });
    assert!(!machine.validate_links());
}

#[test]
fn aliases_of_unique_owners_are_recognized() {
    let db = program();
    let mut machine = Machine::new();
    assert!(machine.validate_unaliased());
    let owned = machine.new_value(ObjectData::Unit, PermissionData::my());
    let joint = machine.new_value(ObjectData::Unit, PermissionData::our());
    // What is jointly owned may be held twice.
    machine.push_frame(Frame::for_call(&db, Bir { index: 0 }, &vec![Some(joint), Some(joint)]));
    assert!(machine.validate_unaliased());
    machine.set_in_flight(Some(owned));
    assert!(machine.validate_unaliased());
    // A tuple that holds what the frame holds in flight.
    let tuple = machine.new_value(
        ObjectData::Tuple(dada_execute::machine::Tuple { fields: vec![None, Some(owned)] }),
        PermissionData::my(),
    );
    assert!(!machine.validate_unaliased());
    machine.set_in_flight(None);
    assert!(machine.validate_unaliased());
    // A tuple that holds twice what it owns.
    machine.set_object_slot(tuple.object, 0, Some(owned));
    assert!(!machine.validate_unaliased());
    machine.set_object_slot(tuple.object, 0, Some(joint));
    assert!(machine.validate_unaliased());
    // A permission that is canceled still owns.
    let data = machine.permission(owned.permission).unwrap();
    machine.set_permission(owned.permission, PermissionData { canceled: true, ..data });
    machine.set_local(LocalVariable { index: 0 }, Some(owned));
    assert!(!machine.validate_unaliased());
}
