//! Evaluating expressions, executing statements and terminators: what one
//! step of the machine does, as a function on the machine's model.
use vstd::prelude::*;
use crate::bir::{
    ActionData, BirRecord, ControlPoint, ControlPointData, Expr, ExprData, Place, TerminatorData,
    TerminatorExpr,
};
use crate::db::Db;
use crate::fault::{Fault, FaultKind};
use crate::kernel::breakpoint_outcome;
use crate::model::{
    MachineModel, ObjectModel, PermissionData, ProgramCounter, Slot, Value,
};
use crate::step::await_thunk::{AwaitResultModel, RustThunkModel};
use crate::step::call::CallResult;
use crate::text::{decimal, signed_decimal};

verus! {

/// What the caller of a step is to do next.
pub enum ControlFlowModel {
    /// Step again.
    Next,
    /// Execution is over: it returned the value from the program counter.
    Done(ProgramCounter, Value),
    /// Have the host carry out the thunk, hand the machine the result, and
    /// step again.
    Await(RustThunkModel),
}

/// The text with which `data` stands in a concatenation; only strings,
/// booleans, integers and the unit have one.
pub open spec fn display_text(data: ObjectModel) -> Option<Seq<char>> {
    match data {
        ObjectModel::String(s) => Some(s),
        ObjectModel::Bool(b) => Some(
            if b {
                "true"@
            } else {
                "false"@
            },
        ),
        ObjectModel::Uint(n) => Some(decimal(n as nat)),
        ObjectModel::Int(n) => Some(signed_decimal(n as int)),
        ObjectModel::Unit => Some("()"@),
        _ => None,
    }
}

/// The values in `slots[from..]`, after `found`.
pub open spec fn slot_values(slots: Seq<Slot>, from: int, found: Seq<Value>) -> Seq<Value>
    decreases slots.len() - from,
{
    if 0 <= from < slots.len() {
        slot_values(
            slots,
            from + 1,
            match slots[from] {
                Some(value) => found.push(value),
                None => found,
            },
        )
    } else {
        found
    }
}

/// The values that the collector must keep for the caller of a step.
pub open spec fn pinned(flow: ControlFlowModel) -> Seq<Value> {
    match flow {
        ControlFlowModel::Next => seq![],
        ControlFlowModel::Done(_, value) => seq![value],
        ControlFlowModel::Await(thunk) => slot_values(thunk.arguments, 0, seq![]),
    }
}

impl MachineModel {
    /// A fresh value of `data` with the permission `permission`, as the
    /// outcome of an evaluation.
    pub open spec fn fresh(self, data: ObjectModel, permission: PermissionData) -> (
        MachineModel,
        Result<Value, Fault>,
    ) {
        let (m, value) = self.new_value(data, permission);
        (m, Ok(value))
    }

    /// Reads `places[from..]` in order and appends the text of each to
    /// `text`; stops at the first fault.
    pub open spec fn concatenate(
        self,
        db: &Db,
        code: &BirRecord,
        places: Seq<Place>,
        from: int,
        text: Seq<char>,
    ) -> (MachineModel, Result<Seq<char>, Fault>)
        decreases places.len() - from,
    {
        if 0 <= from < places.len() {
            let (m, r) = self.read_place(db, code, places[from]);
            match r {
                Err(fault) => (m, Err(fault)),
                Ok(object) => match m.object(object) {
                    Some(data) => match display_text(data) {
                        Some(part) => m.concatenate(db, code, places, from + 1, text + part),
                        None => (
                            m,
                            Err(
                                Fault {
                                    kind: FaultKind::TypeMismatch,
                                    span: code.spec_place_span(places[from]),
                                },
                            ),
                        ),
                    },
                    None => (
                        m,
                        Err(
                            Fault {
                                kind: FaultKind::Uninitialized,
                                span: code.spec_place_span(places[from]),
                            },
                        ),
                    ),
                },
            }
        } else {
            (self, Ok(text))
        }
    }

    /// Evaluates `expr` to a value.
    ///
    /// A literal allocates a primitive with a fresh shared-immutable
    /// permission.  A tuple gives its places in order and allocates a tuple
    /// that is uniquely owned.  Giving, sharing and leasing act on their
    /// place.  An operator reads its operands and allocates the result.  An
    /// error node faults.
    pub open spec fn eval_expr(self, db: &Db, code: &BirRecord, expr: Expr) -> (
        MachineModel,
        Result<Value, Fault>,
    ) {
        let span = code.spec_expr_span(expr);
        match code.data.tables.exprs@[expr.index as int] {
            ExprData::BooleanLiteral(b) => self.fresh(ObjectModel::Bool(b), PermissionData::spec_our()),
            ExprData::SignedIntegerLiteral(n) => self.fresh(
                ObjectModel::Int(n),
                PermissionData::spec_our(),
            ),
            ExprData::UnsignedIntegerLiteral(n) => self.fresh(
                ObjectModel::Uint(n),
                PermissionData::spec_our(),
            ),
            ExprData::IntegerLiteral(n) => self.fresh(ObjectModel::Uint(n), PermissionData::spec_our()),
            ExprData::FloatLiteral(bits) => self.fresh(
                ObjectModel::Float(bits),
                PermissionData::spec_our(),
            ),
            ExprData::StringLiteral(word) => self.fresh(
                ObjectModel::String(word.text(db)),
                PermissionData::spec_our(),
            ),
            ExprData::IntoShared(place) => self.share_place(db, code, place),
            ExprData::Share(place) => self.share_place(db, code, place),
            ExprData::Lease(place) => self.lease_place(db, code, place),
            ExprData::Give(place) => self.give_place(db, code, place, false),
            ExprData::Unit => self.fresh(ObjectModel::Unit, PermissionData::spec_our()),
            ExprData::Tuple(places) => {
                let (m, r) = self.give_places(db, code, places@, 0, seq![]);
                match r {
                    Err(fault) => (m, Err(fault)),
                    Ok(fields) => m.fresh(ObjectModel::Tuple { fields }, PermissionData::spec_my()),
                }
            },
            ExprData::Concatenate(places) => {
                let (m, r) = self.concatenate(db, code, places@, 0, Seq::empty());
                match r {
                    Err(fault) => (m, Err(fault)),
                    Ok(text) => m.fresh(ObjectModel::String(text), PermissionData::spec_our()),
                }
            },
            ExprData::Op(lhs, op, rhs) => {
                let (m, r) = self.read_place(db, code, lhs);
                match r {
                    Err(fault) => (m, Err(fault)),
                    Ok(left) => {
                        let (m, r) = m.read_place(db, code, rhs);
                        match r {
                            Err(fault) => (m, Err(fault)),
                            Ok(right) => m.apply_op(op, left, right, span),
                        }
                    },
                }
            },
            ExprData::Unary(op, rhs) => {
                let (m, r) = self.read_place(db, code, rhs);
                match r {
                    Err(fault) => (m, Err(fault)),
                    Ok(right) => m.apply_unary(op, right, span),
                }
            },
            ExprData::Error => (self, Err(Fault { kind: FaultKind::CompilationError, span })),
        }
    }

    /// Reads `place` and expects a boolean there.
    pub open spec fn eval_place_to_bool(self, db: &Db, code: &BirRecord, place: Place) -> (
        MachineModel,
        Result<bool, Fault>,
    ) {
        let (m, r) = self.read_place(db, code, place);
        match r {
            Err(fault) => (m, Err(fault)),
            Ok(object) => match m.object(object) {
                Some(ObjectModel::Bool(b)) => (m, Ok(b)),
                Some(_) => (
                    m,
                    Err(Fault { kind: FaultKind::TypeMismatch, span: code.spec_place_span(place) }),
                ),
                None => (
                    m,
                    Err(Fault { kind: FaultKind::Uninitialized, span: code.spec_place_span(place) }),
                ),
            },
        }
    }

    /// Executes the action of the statement at `point`.
    ///
    /// An assignment evaluates its expression and then assigns: permissions
    /// of the target are not canceled before the expression has its value.
    /// Clearing uninitializes a variable.  A breakpoint changes nothing that
    /// the program can observe; it faults if the host does not agree to go
    /// on (`host_ok`).
    pub open spec fn step_statement(
        self,
        db: &Db,
        code: &BirRecord,
        point: ControlPoint,
        action: ActionData,
        host_ok: bool,
    ) -> (MachineModel, Result<(), Fault>) {
        match action {
            ActionData::Noop => (self, Ok(())),
            ActionData::AssignExpr(target, expr) => {
                let (m, r) = self.eval_expr(db, code, expr);
                match r {
                    Err(fault) => (m, Err(fault)),
                    Ok(value) => m.assign_place(db, code, target, value),
                }
            },
            ActionData::Clear(local) => (self.clear(local), Ok(())),
            ActionData::BreakpointStart(_, _) => (
                self,
                breakpoint_outcome(host_ok, code.spec_point_span(point)),
            ),
            ActionData::BreakpointEnd(_, _, expr, place) => (
                match place {
                    Some(place) => self.peek_place(db, code, place).0,
                    None => self,
                },
                breakpoint_outcome(host_ok, code.spec_span_of(expr)),
            ),
        }
    }

    /// Hands `value` to the frame on top of the stack, which waits at a
    /// terminator that assigns the result of a call or of an await: stores
    /// the value in the target of the assignment and moves to the block that
    /// follows.
    pub open spec fn resume_with(self, db: &Db, value: Value) -> (MachineModel, Result<(), Fault>) {
        match self.top_frame() {
            Some(frame) => match frame.awaiting(db) {
                Some((target, next)) => {
                    let (m, r) = self.assign_place(db, &frame.pc.bir.record(db), target, value);
                    match r {
                        Err(fault) => (m, Err(fault)),
                        Ok(()) => (m.set_pc(frame.pc.spec_move_to_block(next)), Ok(())),
                    }
                },
                None => (self, Ok(())),
            },
            None => (self, Ok(())),
        }
    }

    /// Returns `value` from the top frame: clears the frame, collects, so
    /// that what dies with the frame is canceled while execution still stands
    /// in the callee, and pops the frame.  If a caller is left it is resumed
    /// with the value; otherwise execution is over.
    pub open spec fn return_value(self, db: &Db, pc: ProgramCounter, value: Value) -> (
        MachineModel,
        Result<ControlFlowModel, Fault>,
    ) {
        let m = self.clear_frame().gc(seq![value]).pop_frame();
        if m.stack.len() == 0 {
            (m, Ok(ControlFlowModel::Done(pc, value)))
        } else {
            let (m, r) = m.resume_with(db, value);
            match r {
                Err(fault) => (m, Err(fault)),
                Ok(()) => (m, Ok(ControlFlowModel::Next)),
            }
        }
    }

    /// Executes the terminator at `point`, with the top frame at `pc`.
    pub open spec fn step_terminator(self, db: &Db, code: &BirRecord, pc: ProgramCounter, point: ControlPoint) -> (
        MachineModel,
        Result<ControlFlowModel, Fault>,
    ) {
        match code.data.tables.control_points@[point.index as int] {
            ControlPointData::Terminator(TerminatorData::Goto(b)) => (
                self.set_pc(pc.spec_move_to_block(b)),
                Ok(ControlFlowModel::Next),
            ),
            ControlPointData::Terminator(TerminatorData::StartAtomic(b)) => (
                self.set_pc(pc.spec_move_to_block(b)),
                Ok(ControlFlowModel::Next),
            ),
            ControlPointData::Terminator(TerminatorData::EndAtomic(b)) => (
                self.set_pc(pc.spec_move_to_block(b)),
                Ok(ControlFlowModel::Next),
            ),
            ControlPointData::Terminator(TerminatorData::If(place, if_true, if_false)) => {
                let (m, r) = self.eval_place_to_bool(db, code, place);
                match r {
                    Err(fault) => (m, Err(fault)),
                    Ok(b) => (
                        m.set_pc(
                            pc.spec_move_to_block(
                                if b {
                                    if_true
                                } else {
                                    if_false
                                },
                            ),
                        ),
                        Ok(ControlFlowModel::Next),
                    ),
                }
            },
            ControlPointData::Terminator(
                TerminatorData::Assign(
                    destination,
                    TerminatorExpr::Call { function, arguments, labels },
                    next,
                ),
            ) => {
                let (m, r) = self.call(db, code, point, function, arguments@, labels@);
                match r {
                    Err(fault) => (m, Err(fault)),
                    Ok(CallResult::Returned(value)) => {
                        let (m, r) = m.assign_place(db, code, destination, value);
                        match r {
                            Err(fault) => (m, Err(fault)),
                            Ok(()) => (m.set_pc(pc.spec_move_to_block(next)), Ok(ControlFlowModel::Next)),
                        }
                    },
                    Ok(CallResult::PushedNewFrame) => (m, Ok(ControlFlowModel::Next)),
                }
            },
            ControlPointData::Terminator(
                TerminatorData::Assign(_, TerminatorExpr::Await(place), _),
            ) => {
                let (m, r) = self.await_thunk(db, code, place);
                match r {
                    Err(fault) => (m, Err(fault)),
                    Ok(AwaitResultModel::PushedNewFrame) => (m, Ok(ControlFlowModel::Next)),
                    Ok(AwaitResultModel::RustThunk(thunk)) => (m, Ok(ControlFlowModel::Await(thunk))),
                }
            },
            ControlPointData::Terminator(TerminatorData::Return(place)) => {
                let (m, r) = self.give_place(db, code, place, true);
                match r {
                    Err(fault) => (m, Err(fault)),
                    Ok(value) => m.return_value(db, pc, value),
                }
            },
            ControlPointData::Terminator(TerminatorData::Error) => (
                self,
                Err(Fault { kind: FaultKind::CompilationError, span: code.spec_point_span(point) }),
            ),
            ControlPointData::Terminator(TerminatorData::Panic) => (
                self,
                Err(Fault { kind: FaultKind::Panic, span: code.spec_point_span(point) }),
            ),
            ControlPointData::Statement(_) => (self, Ok(ControlFlowModel::Next)),
        }
    }

    /// Advances the machine by one statement or one terminator, and then
    /// collects.  A step that faults leaves the program counter where it was
    /// and does not collect.
    pub open spec fn step(self, db: &Db, host_ok: bool) -> (MachineModel, Result<ControlFlowModel, Fault>) {
        let frame = self.stack.last();
        let pc = frame.pc;
        let code = pc.bir.record(db);
        let point = frame.point(db).unwrap();
        match code.data.tables.control_points@[point.index as int] {
            ControlPointData::Statement(s) => {
                let (m, r) = self.step_statement(db, &code, point, s.action, host_ok);
                match r {
                    Err(fault) => (m, Err(fault)),
                    Ok(()) => (
                        m.set_pc(ProgramCounter { statement: (pc.statement + 1) as usize, ..pc }).gc(
                            seq![],
                        ),
                        Ok(ControlFlowModel::Next),
                    ),
                }
            },
            ControlPointData::Terminator(_) => {
                let (m, r) = self.step_terminator(db, &code, pc, point);
                match r {
                    Err(fault) => (m, Err(fault)),
                    Ok(flow) => (m.gc(pinned(flow)), Ok(flow)),
                }
            },
        }
    }
}

} // verus!
