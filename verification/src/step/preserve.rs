//! A step keeps the stack well formed.
use vstd::prelude::*;
use crate::bir::{
    ActionData, BirRecord, ControlPoint, ControlPointData, Expr, ExprData, Name, Place, TerminatorData,
    TerminatorExpr,
};
use crate::db::Db;
use crate::model::{FrameModel, MachineModel, ProgramCounter, Slot, Value};
use crate::step::await_thunk::AwaitResultModel;
use crate::step::call::{callee_of, parameter_names, CallResult, Callee};
use crate::step::shape::{
    lemma_assign_place_keeps_shape, lemma_clear_from_keeps_shape, lemma_give_places_keep_shape,
    lemma_give_share_lease_keep_shape, lemma_read_place_keeps, lemma_same_shape_wf,
    lemma_set_slot_keeps_shape,
};
use crate::step::traversal::SlotAddress;

verus! {

impl MachineModel {
    /// `other` is this machine with one more frame on its stack: the frames
    /// below have the shape they had, and the frame on top is well formed.
    pub open spec fn pushed(self, other: MachineModel, db: &Db) -> bool {
        &&& other.stack.len() == self.stack.len() + 1
        &&& other.stack.last().wf(db)
        &&& forall|i: int|
            0 <= i < self.stack.len() ==> (#[trigger] self.stack[i]).pc == other.stack[i].pc
                && self.stack[i].variables.len() == other.stack[i].variables.len()
    }
}

/// Having the same shape is transitive.
pub proof fn lemma_same_shape_trans(a: MachineModel, b: MachineModel, c: MachineModel)
    requires
        a.same_shape(b),
        b.same_shape(c),
    ensures
        a.same_shape(c),
{
    assert forall|i: int| 0 <= i < a.stack.len() implies (#[trigger] a.stack[i]).pc == c.stack[i].pc
        && a.stack[i].variables.len() == c.stack[i].variables.len() by {
        assert(a.stack[i].pc == b.stack[i].pc);
        assert(b.stack[i].pc == c.stack[i].pc);
    }
}

/// Concatenating leaves the stack as it is.
pub proof fn lemma_concatenate_keeps(
    m: MachineModel,
    db: &Db,
    code: &BirRecord,
    places: Seq<Place>,
    from: int,
    text: Seq<char>,
)
    ensures
        m.concatenate(db, code, places, from, text).0.stack == m.stack,
    decreases places.len() - from,
{
    if 0 <= from < places.len() {
        lemma_read_place_keeps(m, db, code, places[from]);
        let (m1, r) = m.read_place(db, code, places[from]);
        match r {
            Ok(object) => match m1.object(object) {
                Some(data) => match crate::step::eval::display_text(data) {
                    Some(part) => {
                        lemma_concatenate_keeps(m1, db, code, places, from + 1, text + part);
                    },
                    None => {},
                },
                None => {},
            },
            Err(_) => {},
        }
    }
}

/// Evaluating an expression keeps the shape of the stack.
pub proof fn lemma_eval_expr_keeps_shape(m: MachineModel, db: &Db, code: &BirRecord, expr: Expr)
    ensures
        m.same_shape(m.eval_expr(db, code, expr).0),
{
    match code.data.tables.exprs@[expr.index as int] {
        ExprData::IntoShared(place) => {
            lemma_give_share_lease_keep_shape(m, db, code, place, false);
        },
        ExprData::Share(place) => {
            lemma_give_share_lease_keep_shape(m, db, code, place, false);
        },
        ExprData::Lease(place) => {
            lemma_give_share_lease_keep_shape(m, db, code, place, false);
        },
        ExprData::Give(place) => {
            lemma_give_share_lease_keep_shape(m, db, code, place, false);
        },
        ExprData::Tuple(places) => {
            lemma_give_places_keep_shape(m, db, code, places@, 0, seq![]);
        },
        ExprData::Concatenate(places) => {
            lemma_concatenate_keeps(m, db, code, places@, 0, Seq::empty());
        },
        ExprData::Op(lhs, op, rhs) => {
            lemma_read_place_keeps(m, db, code, lhs);
            let (m1, r) = m.read_place(db, code, lhs);
            lemma_read_place_keeps(m1, db, code, rhs);
        },
        ExprData::Unary(op, rhs) => {
            lemma_read_place_keeps(m, db, code, rhs);
        },
        _ => {},
    }
}

/// Executing the action of a statement keeps the shape of the stack.
pub proof fn lemma_step_statement_keeps_shape(
    m: MachineModel,
    db: &Db,
    code: &BirRecord,
    point: ControlPoint,
    action: ActionData,
    host_ok: bool,
)
    ensures
        m.same_shape(m.step_statement(db, code, point, action, host_ok).0),
{
    match action {
        ActionData::AssignExpr(target, expr) => {
            lemma_eval_expr_keeps_shape(m, db, code, expr);
            let (m1, r) = m.eval_expr(db, code, expr);
            match r {
                Ok(value) => {
                    lemma_assign_place_keeps_shape(m1, db, code, target, value);
                    lemma_same_shape_trans(m, m1, m1.assign_place(db, code, target, value).0);
                },
                Err(_) => {},
            }
        },
        ActionData::Clear(local) => {
            lemma_set_slot_keeps_shape(m, SlotAddress::Local(local), None);
        },
        ActionData::BreakpointEnd(_, _, _, place) => {
            match place {
                Some(place) => {
                    lemma_read_place_keeps(m, db, code, place);
                },
                None => {},
            }
        },
        _ => {},
    }
}

/// A frame made for a call of a function of the program is well formed.
pub proof fn lemma_for_call_wf(db: &Db, bir: crate::bir::Bir, arguments: Seq<Slot>)
    requires
        db.wf(),
        bir.valid(db),
    ensures
        FrameModel::for_call(db, bir, arguments).wf(db),
{
    assert(db.birs@[bir.index as int].wf(db));
    let data = bir.record(db).data;
    assert(data.tables.block_point(data.start_point, 0) == Some(data.start_point));
}

/// A call either keeps the shape of the stack or pushes a well-formed frame.
pub proof fn lemma_call_shape(
    m: MachineModel,
    db: &Db,
    code: &BirRecord,
    point: ControlPoint,
    function: Place,
    arguments: Seq<Place>,
    labels: Seq<Option<Name>>,
)
    requires
        db.wf(),
    ensures
        match m.call(db, code, point, function, arguments, labels).1 {
            Ok(CallResult::PushedNewFrame) => m.pushed(
                m.call(db, code, point, function, arguments, labels).0,
                db,
            ),
            _ => m.same_shape(m.call(db, code, point, function, arguments, labels).0),
        },
{
    lemma_read_place_keeps(m, db, code, function);
    let (m1, r) = m.read_place(db, code, function);
    match r {
        Ok(object) => match m1.object(object) {
            Some(data) => match callee_of(data) {
                Some(callee) => match parameter_names(db, callee) {
                    Some(expected) => {
                        lemma_give_places_keep_shape(m1, db, code, arguments, 0, seq![]);
                        let (m2, r2) = m1.give_places(db, code, arguments, 0, seq![]);
                        match r2 {
                            Ok(given) => {
                                match callee {
                                    Callee::Function(f) => {
                                        lemma_for_call_wf(db, f.data(db).bir, given);
                                        assert(db.functions@[f.index as int].wf(db));
                                    },
                                    _ => {},
                                }
                                let (m3, result) = m2.invoke(db, callee, given);
                                assert forall|i: int| 0 <= i < m.stack.len() implies (
                                #[trigger] m.stack[i]).pc == m3.stack[i].pc
                                    && m.stack[i].variables.len() == m3.stack[i].variables.len() by {
                                    assert(m1.stack[i].pc == m2.stack[i].pc);
                                }
                            },
                            Err(_) => {},
                        }
                    },
                    None => {},
                },
                None => {},
            },
            None => {},
        },
        Err(_) => {},
    }
}

/// Awaiting either keeps the shape of the stack or pushes a well-formed
/// frame.
pub proof fn lemma_await_shape(m: MachineModel, db: &Db, code: &BirRecord, place: Place)
    requires
        db.wf(),
    ensures
        match m.await_thunk(db, code, place).1 {
            Ok(AwaitResultModel::PushedNewFrame) => m.pushed(m.await_thunk(db, code, place).0, db),
            _ => m.same_shape(m.await_thunk(db, code, place).0),
        },
{
    lemma_give_share_lease_keep_shape(m, db, code, place, false);
    let (m1, r) = m.give_place(db, code, place, false);
    match r {
        Ok(value) => match m1.object(value.object) {
            Some(
                crate::model::ObjectModel::Thunk {
                    callee: crate::model::ThunkCallee::Function(f),
                    arguments,
                },
            ) => {
                crate::step::shape::lemma_empty_slots_keeps(m1, value.object, 0);
                if f.valid(db) && f.data(db).bir.valid(db) {
                    lemma_for_call_wf(db, f.data(db).bir, arguments);
                }
            },
            _ => {
                crate::step::shape::lemma_empty_slots_keeps(m1, value.object, 0);
            },
        },
        Err(_) => {},
    }
}

/// Moving the top frame to another point of its function keeps the stack
/// well formed.
pub proof fn lemma_set_pc_wf(m: MachineModel, db: &Db, pc: ProgramCounter)
    requires
        m.wf(db),
        m.stack.len() > 0,
        (FrameModel { pc, ..m.stack.last() }).wf(db),
    ensures
        m.set_pc(pc).wf(db),
{
    let after = m.set_pc(pc);
    assert forall|i: int| 0 <= i < after.stack.len() implies (#[trigger] after.stack[i]).wf(db) && (i
        + 1 < after.stack.len() ==> after.stack[i].awaiting(db) is Some) by {
        if i < after.stack.len() - 1 {
            assert(m.stack[i].wf(db));
            assert(after.stack[i] == m.stack[i]);
        }
    }
}

/// Moving the top frame to the start of a block of its function keeps the
/// stack well formed.
pub proof fn lemma_move_to_block_wf(m: MachineModel, db: &Db, block: ControlPoint)
    requires
        m.wf(db),
        m.stack.len() > 0,
        block.index < m.stack.last().pc.bir.record(db).data.tables.control_points@.len(),
    ensures
        m.set_pc(m.stack.last().pc.spec_move_to_block(block)).wf(db),
{
    let frame = m.stack.last();
    assert(m.stack[m.stack.len() - 1].wf(db));
    let tables = frame.pc.bir.record(db).data.tables;
    assert(tables.block_point(block, 0) == Some(block));
    lemma_set_pc_wf(m, db, frame.pc.spec_move_to_block(block));
}

/// A machine whose stack has grown by a well-formed frame on top of a frame
/// that waits is well formed.
pub proof fn lemma_pushed_wf(m: MachineModel, after: MachineModel, db: &Db)
    requires
        m.wf(db),
        m.stack.len() > 0,
        m.stack.last().awaiting(db) is Some,
        m.pushed(after, db),
    ensures
        after.wf(db),
{
    assert forall|i: int| 0 <= i < after.stack.len() implies (#[trigger] after.stack[i]).wf(db) && (i
        + 1 < after.stack.len() ==> after.stack[i].awaiting(db) is Some) by {
        if i < m.stack.len() {
            assert(m.stack[i].wf(db));
            assert(m.stack[i].pc == after.stack[i].pc);
        }
    }
}

/// The terminator at which a well-formed frame waits is well formed.
pub proof fn lemma_point_wf(frame: FrameModel, db: &Db)
    requires
        db.wf(),
        frame.wf(db),
    ensures
        frame.point(db).unwrap().index < frame.pc.bir.record(db).data.tables.control_points@.len(),
        frame.pc.bir.record(db).data.tables.control_points@[frame.point(db).unwrap().index as int].wf(
            &frame.pc.bir.record(db).data.tables,
        ),
        frame.pc.bir.record(db).wf(db),
{
    let record = frame.pc.bir.record(db);
    assert(db.birs@[frame.pc.bir.index as int].wf(db));
    record.data.tables.lemma_block_point_in_range(frame.pc.basic_block, frame.pc.statement as nat);
}

/// Resuming a frame that waits keeps the stack well formed.
pub proof fn lemma_resume_with_wf(m: MachineModel, db: &Db, value: Value)
    requires
        db.wf(),
        m.wf(db),
    ensures
        m.resume_with(db, value).0.wf(db),
{
    match m.top_frame() {
        Some(frame) => match frame.awaiting(db) {
            Some((target, next)) => {
                assert(m.stack[m.stack.len() - 1].wf(db));
                lemma_point_wf(frame, db);
                let code = frame.pc.bir.record(db);
                lemma_assign_place_keeps_shape(m, db, &code, target, value);
                let (m1, r) = m.assign_place(db, &code, target, value);
                lemma_same_shape_wf(m, m1, db);
                match r {
                    Ok(()) => {
                        assert(m1.stack[m1.stack.len() - 1].pc == m.stack[m.stack.len() - 1].pc);
                        lemma_move_to_block_wf(m1, db, next);
                    },
                    Err(_) => {},
                }
            },
            None => {},
        },
        None => {},
    }
}

/// Returning from the top frame keeps the stack well formed, and the frame
/// that it uncovers waits.
pub proof fn lemma_return_value_wf(m: MachineModel, db: &Db, pc: ProgramCounter, value: Value)
    requires
        db.wf(),
        m.wf(db),
        m.stack.len() > 0,
    ensures
        m.clear_frame().gc(seq![value]).pop_frame().wf(db),
        m.clear_frame().gc(seq![value]).pop_frame().stack.len() == m.stack.len() - 1,
        m.stack.len() > 1 ==> m.clear_frame().gc(seq![value]).pop_frame().stack.last().awaiting(db) is Some,
        m.return_value(db, pc, value).0.wf(db),
{
    lemma_clear_from_keeps_shape(m, 0);
    let m1 = m.clear_frame();
    let m2 = m1.gc(seq![value]);
    let m3 = m2.pop_frame();
    assert forall|i: int| 0 <= i < m3.stack.len() implies (#[trigger] m3.stack[i]).wf(db) && (i + 1
        < m3.stack.len() ==> m3.stack[i].awaiting(db) is Some) by {
        assert(m.stack[i].wf(db));
        assert(m.stack[i].pc == m1.stack[i].pc);
        assert(m3.stack[i] == m1.stack[i]);
    }
    if m.stack.len() > 1 {
        let i = m3.stack.len() - 1;
        assert(m.stack[i].wf(db));
        assert(m.stack[i].pc == m1.stack[i].pc);
        assert(m3.stack[i] == m1.stack[i]);
    }
    lemma_resume_with_wf(m3, db, value);
}

/// Executing a terminator keeps the stack well formed.
pub proof fn lemma_step_terminator_wf(m: MachineModel, db: &Db)
    requires
        db.wf(),
        m.wf(db),
        m.stack.len() > 0,
    ensures
        m.step_terminator(
            db,
            &m.stack.last().pc.bir.record(db),
            m.stack.last().pc,
            m.stack.last().point(db).unwrap(),
        ).0.wf(db),
{
    let frame = m.stack.last();
    assert(m.stack[m.stack.len() - 1].wf(db));
    let pc = frame.pc;
    let code = pc.bir.record(db);
    let point = frame.point(db).unwrap();
    lemma_point_wf(frame, db);
    match code.data.tables.control_points@[point.index as int] {
        ControlPointData::Terminator(TerminatorData::Goto(b)) => {
            lemma_move_to_block_wf(m, db, b);
        },
        ControlPointData::Terminator(TerminatorData::StartAtomic(b)) => {
            lemma_move_to_block_wf(m, db, b);
        },
        ControlPointData::Terminator(TerminatorData::EndAtomic(b)) => {
            lemma_move_to_block_wf(m, db, b);
        },
        ControlPointData::Terminator(TerminatorData::If(place, if_true, if_false)) => {
            lemma_read_place_keeps(m, db, &code, place);
            let (m1, r) = m.eval_place_to_bool(db, &code, place);
            lemma_same_shape_wf(m, m1, db);
            lemma_move_to_block_wf(m1, db, if_true);
            lemma_move_to_block_wf(m1, db, if_false);
        },
        ControlPointData::Terminator(
            TerminatorData::Assign(destination, TerminatorExpr::Call { function, arguments, labels }, next),
        ) => {
            lemma_call_shape(m, db, &code, point, function, arguments@, labels@);
            let (m1, r) = m.call(db, &code, point, function, arguments@, labels@);
            match r {
                Ok(CallResult::Returned(value)) => {
                    lemma_same_shape_wf(m, m1, db);
                    lemma_assign_place_keeps_shape(m1, db, &code, destination, value);
                    let (m2, r2) = m1.assign_place(db, &code, destination, value);
                    lemma_same_shape_wf(m1, m2, db);
                    assert(m1.stack[m1.stack.len() - 1].pc == m2.stack[m2.stack.len() - 1].pc);
                    lemma_move_to_block_wf(m2, db, next);
                },
                Ok(CallResult::PushedNewFrame) => {
                    lemma_pushed_wf(m, m1, db);
                },
                Err(_) => {
                    lemma_same_shape_wf(m, m1, db);
                },
            }
        },
        ControlPointData::Terminator(TerminatorData::Assign(_, TerminatorExpr::Await(place), _)) => {
            lemma_await_shape(m, db, &code, place);
            let (m1, r) = m.await_thunk(db, &code, place);
            match r {
                Ok(AwaitResultModel::PushedNewFrame) => {
                    lemma_pushed_wf(m, m1, db);
                },
                _ => {
                    lemma_same_shape_wf(m, m1, db);
                },
            }
        },
        ControlPointData::Terminator(TerminatorData::Return(place)) => {
            lemma_give_share_lease_keep_shape(m, db, &code, place, true);
            let (m1, r) = m.give_place(db, &code, place, true);
            lemma_same_shape_wf(m, m1, db);
            match r {
                Ok(value) => {
                    lemma_return_value_wf(m1, db, pc, value);
                },
                Err(_) => {},
            }
        },
        _ => {},
    }
}

/// A step keeps the stack well formed.
pub proof fn lemma_step_wf(m: MachineModel, db: &Db, host_ok: bool)
    requires
        db.wf(),
        m.wf(db),
        m.stack.len() > 0,
    ensures
        m.step(db, host_ok).0.wf(db),
{
    let frame = m.stack.last();
    assert(m.stack[m.stack.len() - 1].wf(db));
    let pc = frame.pc;
    let code = pc.bir.record(db);
    let point = frame.point(db).unwrap();
    lemma_point_wf(frame, db);
    match code.data.tables.control_points@[point.index as int] {
        ControlPointData::Statement(s) => {
            lemma_step_statement_keeps_shape(m, db, &code, point, s.action, host_ok);
            let (m1, r) = m.step_statement(db, &code, point, s.action, host_ok);
            lemma_same_shape_wf(m, m1, db);
            match r {
                Ok(()) => {
                    code.data.tables.lemma_block_point_next(pc.basic_block, pc.statement as nat);
                    assert(code.data.tables.block_point(pc.basic_block, (pc.statement + 1) as nat) is Some);
                    assert(pc.statement + 1 < code.data.tables.control_points@.len());
                    assert(code.data.tables.control_points@.len()
                        == code.data.tables.control_points.len());
                    assert(m.stack[m.stack.len() - 1].pc == m1.stack[m1.stack.len() - 1].pc);
                    assert(m1.stack[m1.stack.len() - 1].variables.len() == frame.variables.len());
                    lemma_set_pc_wf(m1, db, ProgramCounter { statement: (pc.statement + 1) as usize, ..pc });
                },
                Err(_) => {},
            }
        },
        ControlPointData::Terminator(_) => {
            lemma_step_terminator_wf(m, db);
        },
    }
}

} // verus!
