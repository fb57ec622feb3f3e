//! The interpreter: advances the machine by one statement or one terminator
//! at a time.
//!
//! A step is synchronous and does no input or output.  What the step did is
//! told by a [`ControlFlow`]: step again, have the host carry out a thunk and
//! hand back its value, or stop because the program returned.  After every
//! step the collector runs.
pub mod revoke;
pub mod traversal;
pub mod tenant;
pub mod access;
pub mod give;
pub mod share;
pub mod lease;
pub mod apply_op;
pub mod shape;
pub mod gc;
pub mod call;
pub mod await_thunk;
pub mod eval;
pub mod preserve;
pub mod links;
pub mod weaken;
pub mod valid;
pub mod held;
pub mod unaliased;
pub mod laws;

use vstd::prelude::*;
use crate::bir::{
    ActionData, BirRecord, ControlPoint, ControlPointData, Expr, ExprData, Place, TargetPlace,
    TerminatorData, TerminatorExpr,
};
use crate::db::Db;
use crate::fault::{Fault, FaultKind};
use crate::kernel::{finish_breakpoint, GraphSource, Kernel};
use crate::machine::{Machine, ObjectData, Tuple};
use crate::model::{Object, PermissionData, ProgramCounter, Slot, Value};
use crate::step::await_thunk::{AwaitResult, RustThunk};
use crate::step::call::CallResult;
use crate::step::eval::{display_text, pinned, slot_values, ControlFlowModel};
use crate::step::preserve::{
    lemma_point_wf, lemma_resume_with_wf, lemma_return_value_wf, lemma_step_statement_keeps_shape,
    lemma_step_terminator_wf, lemma_step_wf,
};
use crate::step::shape::{lemma_give_share_lease_keep_shape, lemma_same_shape_wf};
use crate::step::held::{flow_allocated, lemma_resume_with_held, lemma_step_held};
use crate::step::unaliased::{flow_storable, lemma_resume_with_tidy, lemma_step_tidy};
use crate::step::valid::{lemma_resume_with_links, lemma_step_links};
use crate::text::{decimal_text, signed_decimal_text};

verus! {

/// The interpreter of a program: the program and the machine that runs it.
pub struct Stepper<'me> {
    pub db: &'me Db,
    pub machine: Machine,
}

/// Specifies the job of the caller after a step, presuming that they wish to
/// continue execution.
#[derive(Debug)]
pub enum ControlFlow {
    /// Caller's job is to step again.
    Next,
    /// Execution completed from the given program counter with the given
    /// value.
    Done(ProgramCounter, Value),
    /// Caller's job is to carry out the thunk, to hand the machine its value
    /// with `awaken`, and then to step again.
    Await(RustThunk),
}

impl View for ControlFlow {
    type V = ControlFlowModel;

    open spec fn view(&self) -> ControlFlowModel {
        match *self {
            ControlFlow::Next => ControlFlowModel::Next,
            ControlFlow::Done(pc, value) => ControlFlowModel::Done(pc, value),
            ControlFlow::Await(thunk) => ControlFlowModel::Await(thunk@),
        }
    }
}

/// The model of the outcome of a step.
pub open spec fn flow_outcome(r: Result<ControlFlow, Fault>) -> Result<ControlFlowModel, Fault> {
    match r {
        Ok(flow) => Ok(flow@),
        Err(fault) => Err(fault),
    }
}

/// Whether the outcome is the fault of a host that did not agree to go on.
pub open spec fn host_failed<T>(r: Result<T, Fault>) -> bool {
    match r {
        Ok(_) => false,
        Err(fault) => fault.kind == FaultKind::HostError,
    }
}

/// The text with which `data` stands in a concatenation.
fn display(data: &ObjectData) -> (r: Option<String>)
    ensures
        match r {
            Some(text) => display_text(data@) == Some(text@),
            None => display_text(data@) is None,
        },
{
    match data {
        ObjectData::String(s) => Some(s.clone()),
        ObjectData::Bool(b) => Some(
            if *b {
                String::from_str("true")
            } else {
                String::from_str("false")
            },
        ),
        ObjectData::Uint(n) => Some(decimal_text(*n)),
        ObjectData::Int(n) => Some(signed_decimal_text(*n)),
        ObjectData::Unit => Some(String::from_str("()")),
        _ => None,
    }
}

/// The values in `slots`.
fn values_of(slots: &Vec<Slot>) -> (r: Vec<Value>)
    ensures
        r@ == slot_values(slots@, 0, seq![]),
{
    let mut r: Vec<Value> = Vec::new();
    let mut i: usize = 0;
    assert(r@ =~= seq![]);
    while i < slots.len()
        invariant
            i <= slots@.len(),
            slot_values(slots@, i as int, r@) == slot_values(slots@, 0, seq![]),
        decreases slots@.len() - i,
    {
        match slots[i] {
            Some(value) => {
                r.push(value);
            },
            None => {},
        }
        i += 1;
    }
    r
}

/// The values that the collector must keep for the caller of a step.
fn pinned_values(flow: &ControlFlow) -> (r: Vec<Value>)
    ensures
        r@ == pinned(flow@),
{
    match flow {
        ControlFlow::Next => {
            let r: Vec<Value> = Vec::new();
            assert(r@ =~= seq![]);
            r
        },
        ControlFlow::Done(_, value) => {
            let r = vec![*value];
            assert(r@ =~= seq![*value]);
            r
        },
        ControlFlow::Await(thunk) => values_of(&thunk.arguments),
    }
}

impl<'me> Stepper<'me> {
    /// The program is well formed and the stack of the machine is well formed
    /// for it.
    pub open spec fn wf(&self) -> bool {
        self.db.wf() && self.machine@.wf(self.db)
    }

    /// The invariants of the machine: the links among its permissions are
    /// well formed, nothing that it holds dangles, and what is uniquely
    /// owned is held once.
    pub open spec fn invariants(&self) -> bool {
        self.machine@.links_wf() && self.machine@.holds_allocated() && self.machine@.unaliased()
    }

    /// Whether the frame on top of the stack waits for the value of a call or
    /// of an await.
    pub open spec fn awaiting(&self) -> bool {
        self.machine@.stack.len() > 0 && self.machine@.stack.last().awaiting(self.db) is Some
    }

    /// Whether the frame on top of the stack waits for the value of a call or
    /// of an await.
    pub fn is_awaiting(&self) -> (r: bool)
        requires
            self.wf(),
        ensures
            r == self.awaiting(),
    {
        let pc = match self.machine.pc() {
            Some(pc) => pc,
            None => {
                return false;
            },
        };
        proof {
            assert(self.machine@.stack[self.machine@.stack.len() - 1].wf(self.db));
            lemma_point_wf(self.machine@.stack.last(), self.db);
        }
        let code = pc.bir.get(self.db);
        match code.data.tables.locate(pc.basic_block, pc.statement) {
            Some(point) => match &code.data.tables.control_points[point.index] {
                ControlPointData::Terminator(TerminatorData::Assign(_, _, _)) => true,
                _ => false,
            },
            None => false,
        }
    }

    /// Validates the invariants of the machine at run time.
    pub fn assert_invariants(&self) -> (r: bool)
        ensures
            r == (self.machine@.wf(self.db) && self.invariants()),
    {
        self.machine.validate(self.db) && self.machine.validate_links() && self.machine.validate_held()
            && self.machine.validate_unaliased()
    }

    /// An interpreter of `db` that runs `machine`.
    pub fn new(db: &'me Db, machine: Machine) -> (stepper: Self)
        ensures
            stepper.db == db,
            stepper.machine == machine,
    {
        Stepper { db, machine }
    }

    /// Advances execution by a single step, returning either a fault or an
    /// indication of what the caller should do next.
    ///
    /// The step is what the model of the machine says for the answer of the
    /// host, which matters at breakpoints only: a host that does not agree to
    /// go on makes the step fault.  The step keeps the stack well formed and
    /// keeps the invariants of the machine, and what it hands to the caller is
    /// allocated and can be stored without making an alias of what is
    /// uniquely owned.
    pub fn step<K: Kernel>(&mut self, kernel: &mut K) -> (r: Result<ControlFlow, Fault>)
        requires
            old(self).wf(),
            old(self).machine@.stack.len() > 0,
        ensures
            final(self).db == old(self).db,
            final(self).wf(),
            (final(self).machine@, flow_outcome(r)) == old(self).machine@.step(
                old(self).db,
                !host_failed(r),
            ),
            old(self).invariants() ==> final(self).invariants() && (r matches Ok(flow) ==> flow_allocated(
                final(self).machine@,
                flow@,
            ) && flow_storable(final(self).machine@, flow@)),
    {
        let db = self.db;
        proof {
            lemma_step_tidy(self.machine@, db, true);
            lemma_step_tidy(self.machine@, db, false);
            self.machine.lemma_tables_fit();
            lemma_step_wf(self.machine@, db, true);
            lemma_step_wf(self.machine@, db, false);
            lemma_step_links(self.machine@, db, true);
            lemma_step_links(self.machine@, db, false);
            lemma_step_held(self.machine@, db, true);
            lemma_step_held(self.machine@, db, false);
            assert(self.machine@.stack[self.machine@.stack.len() - 1].wf(db));
            lemma_point_wf(self.machine@.stack.last(), db);
        }
        let pc = match self.machine.pc() {
            Some(pc) => pc,
            None => vstd::pervasive::unreached(),
        };
        let code = pc.bir.get(db);
        let point = match code.data.tables.locate(pc.basic_block, pc.statement) {
            Some(point) => point,
            None => vstd::pervasive::unreached(),
        };
        match &code.data.tables.control_points[point.index] {
            ControlPointData::Statement(s) => {
                match self.step_statement(kernel, code, point, s.action) {
                    Ok(()) => {},
                    Err(fault) => {
                        proof {
                            self.machine.lemma_tables_fit();
                        }
                        return Err(fault);
                    },
                }
                proof {
                    code.data.tables.lemma_block_point_next(pc.basic_block, pc.statement as nat);
                    assert(code.data.tables.block_point(pc.basic_block, (pc.statement + 1) as nat) is Some);
                    assert(pc.statement + 1 < code.data.tables.control_points@.len());
                    assert(code.data.tables.control_points@.len()
                        == code.data.tables.control_points.len());
                }
                self.machine.set_pc(ProgramCounter { statement: pc.statement + 1, ..pc });
                let roots: Vec<Value> = Vec::new();
                assert(roots@ =~= seq![]);
                self.machine.gc(&roots);
                proof {
                    self.machine.lemma_tables_fit();
                }
                Ok(ControlFlow::Next)
            },
            ControlPointData::Terminator(_) => {
                let flow = match self.step_terminator(code, pc, point) {
                    Ok(flow) => flow,
                    Err(fault) => {
                        proof {
                            self.machine.lemma_tables_fit();
                        }
                        return Err(fault);
                    },
                };
                let roots = pinned_values(&flow);
                self.machine.gc(&roots);
                proof {
                    self.machine.lemma_tables_fit();
                }
                Ok(flow)
            },
        }
    }

    /// After a step that asked to await a thunk, hands the machine the value
    /// that the host produced.  The caller then steps again.
    pub fn awaken(&mut self, value: Value) -> (r: Result<(), Fault>)
        requires
            old(self).wf(),
            old(self).awaiting(),
        ensures
            final(self).db == old(self).db,
            final(self).wf(),
            (final(self).machine@, r) == old(self).machine@.resume_with(old(self).db, value),
            old(self).invariants() && old(self).machine@.allocated(value) && old(self).machine@.storable(
                value,
            ) ==> final(self).invariants(),
    {
        proof {
            self.machine.lemma_tables_fit();
            if self.machine@.allocated(value) && self.machine@.storable(value) {
                lemma_resume_with_tidy(self.machine@, self.db, value);
            }
        }
        let r = self.resume_with(value);
        proof {
            lemma_resume_with_links(old(self).machine@, self.db, value);
            lemma_resume_with_held(old(self).machine@, self.db, value);
            self.machine.lemma_tables_fit();
        }
        r
    }

    /// Whether `value` is the unit: a program that returns anything else has
    /// its result printed.
    pub fn is_unit(&self, value: Value) -> (r: bool)
        ensures
            r == (self.machine@.object(value.object) == Some(crate::model::ObjectModel::Unit)),
    {
        match self.machine.object(value.object) {
            Some(ObjectData::Unit) => true,
            _ => false,
        }
    }

    /// Executes the action of the statement at `point`.
    fn step_statement<K: Kernel>(
        &mut self,
        kernel: &mut K,
        code: &BirRecord,
        point: ControlPoint,
        action: ActionData,
    ) -> (r: Result<(), Fault>)
        requires
            old(self).wf(),
            code.wf(old(self).db),
            point.index < code.data.tables.control_points@.len(),
            code.data.tables.control_points@[point.index as int] is Statement,
            code.data.tables.control_points@[point.index as int]->Statement_0.action == action,
        ensures
            final(self).db == old(self).db,
            final(self).wf(),
            (final(self).machine@, r) == old(self).machine@.step_statement(
                old(self).db,
                code,
                point,
                action,
                !host_failed(r),
            ),
    {
        let db = self.db;
        proof {
            lemma_step_statement_keeps_shape(self.machine@, db, code, point, action, true);
            lemma_step_statement_keeps_shape(self.machine@, db, code, point, action, false);
            lemma_same_shape_wf(
                self.machine@,
                self.machine@.step_statement(db, code, point, action, true).0,
                db,
            );
            lemma_same_shape_wf(
                self.machine@,
                self.machine@.step_statement(db, code, point, action, false).0,
                db,
            );
            assert(code.data.tables.control_points@[point.index as int].wf(&code.data.tables));
        }
        match action {
            ActionData::Noop => Ok(()),
            ActionData::AssignExpr(target, expr) => {
                // Permissions of the target are not canceled until the write
                // occurs, so the expression may still read through them.
                let value = match self.eval_expr(code, expr) {
                    Ok(value) => value,
                    Err(fault) => {
                        return Err(fault);
                    },
                };
                self.assign_place(code, target, value)
            },
            ActionData::Clear(local) => {
                self.machine.clear(local);
                Ok(())
            },
            ActionData::BreakpointStart(file, index) => {
                let source = GraphSource::new(db, &self.machine, None);
                let answer = kernel.breakpoint_start(db, file, index, &source);
                finish_breakpoint(answer, code.point_span(point))
            },
            ActionData::BreakpointEnd(file, index, expr, in_flight_place) => {
                let in_flight_value = match in_flight_place {
                    Some(place) => self.peek_place(code, place),
                    None => None,
                };
                let span = code.syntax_tree.spans[expr.index].in_file(code.input_file);
                let source = GraphSource::new(db, &self.machine, in_flight_value);
                let answer = kernel.breakpoint_end(db, file, index, span, &source);
                finish_breakpoint(answer, span)
            },
        }
    }

    /// Resolves `place` to the value found there, without any effect on the
    /// permissions met.
    pub fn peek_place(&mut self, code: &BirRecord, place: Place) -> (r: Option<Value>)
        requires
            code.wf(old(self).db),
            place.index < code.data.tables.places@.len(),
        ensures
            final(self).db == old(self).db,
            (final(self).machine@, r) == old(self).machine@.peek_place(old(self).db, code, place),
    {
        self.machine.peek_place(self.db, code, place)
    }

    /// Assigns `value` to `target`.
    pub fn assign_place(&mut self, code: &BirRecord, target: TargetPlace, value: Value) -> (r: Result<
        (),
        Fault,
    >)
        requires
            code.wf(old(self).db),
            target.index < code.data.tables.target_places@.len(),
        ensures
            final(self).db == old(self).db,
            (final(self).machine@, r) == old(self).machine@.assign_place(
                old(self).db,
                code,
                target,
                value,
            ),
    {
        self.machine.assign_place(self.db, code, target, value)
    }

    /// Reads the object found at `place`.  Reading may cancel leases.
    pub fn read_place(&mut self, code: &BirRecord, place: Place) -> (r: Result<Object, Fault>)
        requires
            code.wf(old(self).db),
            place.index < code.data.tables.places@.len(),
        ensures
            final(self).db == old(self).db,
            (final(self).machine@, r) == old(self).machine@.read_place(old(self).db, code, place),
    {
        self.machine.read_place(self.db, code, place)
    }

    /// Reads `place` and expects a boolean there.
    pub fn eval_place_to_bool(&mut self, code: &BirRecord, place: Place) -> (r: Result<bool, Fault>)
        requires
            code.wf(old(self).db),
            place.index < code.data.tables.places@.len(),
        ensures
            final(self).db == old(self).db,
            (final(self).machine@, r) == old(self).machine@.eval_place_to_bool(
                old(self).db,
                code,
                place,
            ),
    {
        let object = self.read_place(code, place)?;
        match self.machine.object(object) {
            Some(ObjectData::Bool(b)) => Ok(*b),
            Some(_) => Err(Fault { kind: FaultKind::TypeMismatch, span: code.place_span(place) }),
            None => Err(Fault { kind: FaultKind::Uninitialized, span: code.place_span(place) }),
        }
    }

    /// Reads `places` in order and concatenates their texts.
    fn concatenate(&mut self, code: &BirRecord, places: &Vec<Place>) -> (r: Result<String, Fault>)
        requires
            code.wf(old(self).db),
            crate::bir::places_in_range(places@, &code.data.tables),
        ensures
            final(self).db == old(self).db,
            (
                final(self).machine@,
                match r {
                    Ok(text) => Ok(text@),
                    Err(fault) => Err(fault),
                },
            ) == old(self).machine@.concatenate(old(self).db, code, places@, 0, Seq::empty()),
    {
        let mut text = String::new();
        let mut i: usize = 0;
        while i < places.len()
            invariant
                i <= places@.len(),
                self.db == old(self).db,
                code.wf(self.db),
                crate::bir::places_in_range(places@, &code.data.tables),
                self.machine@.concatenate(self.db, code, places@, i as int, text@) == old(
                    self,
                ).machine@.concatenate(old(self).db, code, places@, 0, Seq::empty()),
            decreases places@.len() - i,
        {
            let object = match self.read_place(code, places[i]) {
                Ok(object) => object,
                Err(fault) => {
                    return Err(fault);
                },
            };
            let part = match self.machine.object(object) {
                Some(data) => match display(data) {
                    Some(part) => part,
                    None => {
                        return Err(
                            Fault { kind: FaultKind::TypeMismatch, span: code.place_span(places[i]) },
                        );
                    },
                },
                None => {
                    return Err(
                        Fault { kind: FaultKind::Uninitialized, span: code.place_span(places[i]) },
                    );
                },
            };
            text.append(part.as_str());
            i += 1;
        }
        Ok(text)
    }

    /// Evaluates `expr` to a value.
    pub fn eval_expr(&mut self, code: &BirRecord, expr: Expr) -> (r: Result<Value, Fault>)
        requires
            code.wf(old(self).db),
            expr.index < code.data.tables.exprs@.len(),
        ensures
            final(self).db == old(self).db,
            (final(self).machine@, r) == old(self).machine@.eval_expr(old(self).db, code, expr),
    {
        let db = self.db;
        let span = code.expr_span(expr);
        assert(code.data.tables.exprs@[expr.index as int].wf(&code.data.tables, db));
        match &code.data.tables.exprs[expr.index] {
            ExprData::BooleanLiteral(v) => Ok(
                self.machine.new_value(ObjectData::Bool(*v), PermissionData::our()),
            ),
            ExprData::SignedIntegerLiteral(v) => Ok(
                self.machine.new_value(ObjectData::Int(*v), PermissionData::our()),
            ),
            ExprData::UnsignedIntegerLiteral(v) => Ok(
                self.machine.new_value(ObjectData::Uint(*v), PermissionData::our()),
            ),
            ExprData::IntegerLiteral(v) => Ok(
                self.machine.new_value(ObjectData::Uint(*v), PermissionData::our()),
            ),
            ExprData::FloatLiteral(bits) => Ok(
                self.machine.new_value(ObjectData::Float(*bits), PermissionData::our()),
            ),
            ExprData::StringLiteral(v) => Ok(
                self.machine.new_value(
                    ObjectData::String(String::from_str(v.as_str(db))),
                    PermissionData::our(),
                ),
            ),
            ExprData::IntoShared(place) => self.machine.share_place(db, code, *place),
            ExprData::Share(place) => self.machine.share_place(db, code, *place),
            ExprData::Lease(place) => self.machine.lease_place(db, code, *place),
            ExprData::Give(place) => self.machine.give_place(db, code, *place, false),
            ExprData::Unit => Ok(self.machine.new_value(ObjectData::Unit, PermissionData::our())),
            ExprData::Tuple(places) => {
                let fields = self.machine.give_places(db, code, places)?;
                Ok(self.machine.new_value(ObjectData::Tuple(Tuple { fields }), PermissionData::my()))
            },
            ExprData::Concatenate(places) => {
                let text = self.concatenate(code, places)?;
                Ok(self.machine.new_value(ObjectData::String(text), PermissionData::our()))
            },
            ExprData::Op(lhs, op, rhs) => {
                let left = self.read_place(code, *lhs)?;
                let right = self.read_place(code, *rhs)?;
                self.machine.apply_op(*op, left, right, span)
            },
            ExprData::Unary(op, rhs) => {
                let right = self.read_place(code, *rhs)?;
                self.machine.apply_unary(*op, right, span)
            },
            ExprData::Error => Err(Fault { kind: FaultKind::CompilationError, span }),
        }
    }

    /// Executes the terminator at `point`, at which the top frame stands.
    fn step_terminator(&mut self, code: &BirRecord, pc: ProgramCounter, point: ControlPoint) -> (r: Result<
        ControlFlow,
        Fault,
    >)
        requires
            old(self).wf(),
            old(self).machine@.stack.len() > 0,
            pc == old(self).machine@.stack.last().pc,
            *code == pc.bir.record(old(self).db),
            old(self).machine@.stack.last().point(old(self).db) == Some(point),
            code.data.tables.control_points@[point.index as int] is Terminator,
        ensures
            final(self).db == old(self).db,
            final(self).wf(),
            (final(self).machine@, flow_outcome(r)) == old(self).machine@.step_terminator(
                old(self).db,
                code,
                pc,
                point,
            ),
    {
        let db = self.db;
        proof {
            lemma_step_terminator_wf(self.machine@, db);
            assert(self.machine@.stack[self.machine@.stack.len() - 1].wf(db));
            lemma_point_wf(self.machine@.stack.last(), db);
        }
        match &code.data.tables.control_points[point.index] {
            ControlPointData::Terminator(TerminatorData::Goto(b)) => {
                self.machine.set_pc(pc.move_to_block(*b));
                Ok(ControlFlow::Next)
            },
            ControlPointData::Terminator(TerminatorData::StartAtomic(b)) => {
                self.machine.set_pc(pc.move_to_block(*b));
                Ok(ControlFlow::Next)
            },
            ControlPointData::Terminator(TerminatorData::EndAtomic(b)) => {
                self.machine.set_pc(pc.move_to_block(*b));
                Ok(ControlFlow::Next)
            },
            ControlPointData::Terminator(TerminatorData::If(place, if_true, if_false)) => {
                let b = match self.eval_place_to_bool(code, *place) {
                    Ok(b) => b,
                    Err(fault) => {
                        return Err(fault);
                    },
                };
                if b {
                    self.machine.set_pc(pc.move_to_block(*if_true));
                } else {
                    self.machine.set_pc(pc.move_to_block(*if_false));
                }
                Ok(ControlFlow::Next)
            },
            ControlPointData::Terminator(
                TerminatorData::Assign(
                    destination,
                    TerminatorExpr::Call { function, arguments, labels },
                    next_block,
                ),
            ) => {
                match self.machine.call(db, code, point, *function, arguments, labels) {
                    Ok(CallResult::Returned(return_value)) => {
                        match self.assign_place(code, *destination, return_value) {
                            Ok(()) => {},
                            Err(fault) => {
                                return Err(fault);
                            },
                        }
                        self.machine.set_pc(pc.move_to_block(*next_block));
                        Ok(ControlFlow::Next)
                    },
                    Ok(CallResult::PushedNewFrame) => Ok(ControlFlow::Next),
                    Err(fault) => Err(fault),
                }
            },
            ControlPointData::Terminator(
                TerminatorData::Assign(_, TerminatorExpr::Await(thunk_place), _),
            ) => {
                match self.machine.await_thunk(db, code, *thunk_place) {
                    Ok(AwaitResult::PushedNewFrame) => Ok(ControlFlow::Next),
                    Ok(AwaitResult::RustThunk(rust_thunk)) => Ok(ControlFlow::Await(rust_thunk)),
                    Err(fault) => Err(fault),
                }
            },
            ControlPointData::Terminator(TerminatorData::Return(place)) => {
                let return_value = match self.machine.give_place(db, code, *place, true) {
                    Ok(value) => value,
                    Err(fault) => {
                        return Err(fault);
                    },
                };
                proof {
                    lemma_give_share_lease_keep_shape(old(self).machine@, db, code, *place, true);
                    lemma_same_shape_wf(old(self).machine@, self.machine@, db);
                    lemma_return_value_wf(self.machine@, db, pc, return_value);
                }
                // Before the frame is popped, clear it and collect: what dies
                // with the frame is canceled while execution still stands at
                // the end of the callee, not in the caller.
                self.machine.clear_frame();
                let roots = vec![return_value];
                assert(roots@ =~= seq![return_value]);
                self.machine.gc(&roots);
                self.machine.pop_frame();
                // If that was the last frame, execution is over.  Otherwise
                // resume the frame just uncovered.
                if self.machine.stack_len() == 0 {
                    Ok(ControlFlow::Done(pc, return_value))
                } else {
                    match self.resume_with(return_value) {
                        Ok(()) => Ok(ControlFlow::Next),
                        Err(fault) => Err(fault),
                    }
                }
            },
            ControlPointData::Terminator(TerminatorData::Error) => Err(
                Fault { kind: FaultKind::CompilationError, span: code.point_span(point) },
            ),
            ControlPointData::Terminator(TerminatorData::Panic) => Err(
                Fault { kind: FaultKind::Panic, span: code.point_span(point) },
            ),
            ControlPointData::Statement(_) => Ok(ControlFlow::Next),
        }
    }

    /// When a function is called or a thunk awaited, the calling frame stays
    /// on the stack; when the result comes back, it is stored where the frame
    /// expects it and the frame moves to the next block.
    fn resume_with(&mut self, value: Value) -> (r: Result<(), Fault>)
        requires
            old(self).wf(),
            old(self).awaiting(),
        ensures
            final(self).db == old(self).db,
            final(self).wf(),
            (final(self).machine@, r) == old(self).machine@.resume_with(old(self).db, value),
    {
        let db = self.db;
        proof {
            lemma_resume_with_wf(self.machine@, db, value);
            assert(self.machine@.stack[self.machine@.stack.len() - 1].wf(db));
            lemma_point_wf(self.machine@.stack.last(), db);
        }
        let pc = match self.machine.pc() {
            Some(pc) => pc,
            None => vstd::pervasive::unreached(),
        };
        let code = pc.bir.get(db);
        let point = match code.data.tables.locate(pc.basic_block, pc.statement) {
            Some(point) => point,
            None => vstd::pervasive::unreached(),
        };
        match &code.data.tables.control_points[point.index] {
            ControlPointData::Terminator(TerminatorData::Assign(target, _, next)) => {
                match self.assign_place(code, *target, value) {
                    Ok(()) => {},
                    Err(fault) => {
                        return Err(fault);
                    },
                }
                self.machine.set_pc(pc.move_to_block(*next));
                Ok(())
            },
            _ => vstd::pervasive::unreached(),
        }
    }
}

} // verus!
