//! The kernel: what the host provides to the interpreter.
use vstd::prelude::*;
use crate::db::Db;
use crate::fault::{Fault, FaultKind};
use crate::heap_graph::{HeapGraph, HeapGraphModel};
use crate::machine::Machine;
use crate::model::Value;
use crate::span::{FileSpan, InputFile};

verus! {

/// A failure that the host reports.
#[derive(Debug)]
pub struct HostError {
    pub message: String,
}

/// A producer of snapshots: the state of the machine at a breakpoint, from
/// which the host may have a snapshot made if it wants one.
pub struct GraphSource<'a> {
    db: &'a Db,
    machine: &'a Machine,
    in_flight_value: Option<Value>,
}

impl<'a> GraphSource<'a> {
    #[verifier::type_invariant]
    spec fn inv(self) -> bool {
        self.db.wf() && self.machine@.wf(self.db)
    }

    /// The program of the machine.
    pub closed spec fn database(&self) -> &Db {
        self.db
    }

    /// The snapshot that this source makes.
    pub closed spec fn graph(&self) -> HeapGraphModel {
        self.machine@.snapshot(self.db, self.in_flight_value)
    }

    /// A source of snapshots of `machine`, with `in_flight_value` as the
    /// value that the top frame has in flight.
    pub fn new(db: &'a Db, machine: &'a Machine, in_flight_value: Option<Value>) -> (source: Self)
        requires
            db.wf(),
            machine@.wf(db),
        ensures
            source.graph() == machine@.snapshot(db, in_flight_value),
            source.database() == db,
    {
        GraphSource { db, machine, in_flight_value }
    }

    /// Makes the snapshot.
    pub fn heap_graph(&self) -> (graph: HeapGraph)
        ensures
            graph@ == self.graph(),
            graph@.wf(self.database()),
    {
        proof {
            use_type_invariant(self);
        }
        HeapGraph::new(self.db, self.machine, self.in_flight_value)
    }
}

/// What the host provides.  The interpreter calls it at breakpoints; what it
/// answers decides whether execution goes on.
pub trait Kernel {
    /// The breakpoint `index` of `file` is about to start executing.
    fn breakpoint_start(&mut self, db: &Db, file: InputFile, index: usize, graph: &GraphSource) -> Result<
        (),
        HostError,
    >;

    /// The breakpoint `index` of `file` has completed the expression at
    /// `span`.
    fn breakpoint_end(
        &mut self,
        db: &Db,
        file: InputFile,
        index: usize,
        span: FileSpan,
        graph: &GraphSource,
    ) -> Result<(), HostError>;
}

/// The outcome of a breakpoint, given what the host answered: execution goes
/// on if the host agreed, and faults at `span` otherwise.
pub open spec fn breakpoint_outcome(host_ok: bool, span: FileSpan) -> Result<(), Fault> {
    if host_ok {
        Ok(())
    } else {
        Err(Fault { kind: FaultKind::HostError, span })
    }
}

/// The outcome of a breakpoint, given what the host answered.
pub fn finish_breakpoint(answer: Result<(), HostError>, span: FileSpan) -> (r: Result<(), Fault>)
    ensures
        r == breakpoint_outcome(answer is Ok, span),
{
    match answer {
        Ok(()) => Ok(()),
        Err(_) => Err(Fault { kind: FaultKind::HostError, span }),
    }
}

} // verus!
