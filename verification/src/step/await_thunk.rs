//! Awaiting a thunk: a thunk of a function runs the function; a thunk of an
//! intrinsic is handed to the host.
use vstd::prelude::*;
use crate::bir::{BirRecord, Place};
use crate::db::Db;
use crate::fault::{Fault, FaultKind};
use crate::function::Intrinsic;
use crate::machine::{Frame, Machine, ObjectData};
use crate::model::{FrameModel, MachineModel, Object, ObjectModel, Slot, ThunkCallee};

verus! {

/// A suspended call of an intrinsic, for the host to carry out.
#[derive(Debug)]
pub struct RustThunk {
    pub intrinsic: Intrinsic,
    pub arguments: Vec<Slot>,
}

pub struct RustThunkModel {
    pub intrinsic: Intrinsic,
    pub arguments: Seq<Slot>,
}

impl View for RustThunk {
    type V = RustThunkModel;

    open spec fn view(&self) -> RustThunkModel {
        RustThunkModel { intrinsic: self.intrinsic, arguments: self.arguments@ }
    }
}

/// What awaiting a thunk did.
#[derive(Debug)]
pub enum AwaitResult {
    /// The thunk's function got a frame; its value comes when the frame
    /// returns.
    PushedNewFrame,
    /// The host is to carry out the thunk.
    RustThunk(RustThunk),
}

pub enum AwaitResultModel {
    PushedNewFrame,
    RustThunk(RustThunkModel),
}

impl View for AwaitResult {
    type V = AwaitResultModel;

    open spec fn view(&self) -> AwaitResultModel {
        match *self {
            AwaitResult::PushedNewFrame => AwaitResultModel::PushedNewFrame,
            AwaitResult::RustThunk(thunk) => AwaitResultModel::RustThunk(thunk@),
        }
    }
}

/// The model of the outcome of awaiting.
pub open spec fn await_outcome(r: Result<AwaitResult, Fault>) -> Result<AwaitResultModel, Fault> {
    match r {
        Ok(result) => Ok(result@),
        Err(fault) => Err(fault),
    }
}

impl MachineModel {
    /// Uninitializes the slots `from..` of the object behind `o`.
    pub open spec fn empty_slots(self, o: Object, from: int) -> MachineModel
        decreases
            (match self.object(o) {
                Some(data) => data.slots().len() - from,
                None => 0,
            }),
    {
        match self.object(o) {
            Some(data) => if 0 <= from < data.slots().len() {
                let emptied = self.set_object_slot(o, from, None);
                if emptied.object(o) is Some && emptied.object(o).unwrap().slots().len()
                    == data.slots().len() {
                    emptied.empty_slots(o, from + 1)
                } else {
                    emptied
                }
            } else {
                self
            },
            None => self,
        }
    }

    /// Awaits the thunk at `place`.  The thunk is given, which moves it out
    /// of its place if it is uniquely owned, and its arguments are taken out
    /// of it.  A thunk of a function that the program declares pushes a frame
    /// for the function with the arguments as its first variables.  A thunk
    /// of an intrinsic is handed out with its arguments.  Anything else is a
    /// mismatch of types.
    pub open spec fn await_thunk(self, db: &Db, code: &BirRecord, place: Place) -> (
        MachineModel,
        Result<AwaitResultModel, Fault>,
    ) {
        let (m, r) = self.give_place(db, code, place, false);
        match r {
            Err(fault) => (m, Err(fault)),
            Ok(value) => match m.object(value.object) {
                Some(ObjectModel::Thunk { callee: ThunkCallee::Function(f), arguments }) => if f.valid(db)
                    && f.data(db).bir.valid(db) {
                    (
                        m.empty_slots(value.object, 0).push_frame(
                            FrameModel::for_call(db, f.data(db).bir, arguments),
                        ),
                        Ok(AwaitResultModel::PushedNewFrame),
                    )
                } else {
                    (m, Err(Fault { kind: FaultKind::TypeMismatch, span: code.spec_place_span(place) }))
                },
                Some(ObjectModel::Thunk { callee: ThunkCallee::Intrinsic(intrinsic), arguments }) => (
                    m.empty_slots(value.object, 0),
                    Ok(AwaitResultModel::RustThunk(RustThunkModel { intrinsic, arguments })),
                ),
                _ => (m, Err(Fault { kind: FaultKind::TypeMismatch, span: code.spec_place_span(place) })),
            },
        }
    }
}

/// A copy of `slots`.
fn copy_slots(slots: &Vec<Slot>) -> (r: Vec<Slot>)
    ensures
        r@ == slots@,
{
    let mut r: Vec<Slot> = Vec::new();
    let mut i: usize = 0;
    while i < slots.len()
        invariant
            i <= slots@.len(),
            r@.len() == i,
            forall|j: int| 0 <= j < i ==> #[trigger] r@[j] == slots@[j],
        decreases slots@.len() - i,
    {
        r.push(slots[i]);
        i += 1;
    }
    assert(r@ =~= slots@);
    r
}

impl Machine {
    /// Uninitializes the slots of the object behind `o`.
    pub fn empty_slots(&mut self, o: Object)
        ensures
            final(self)@ == old(self)@.empty_slots(o, 0),
    {
        let n = self.slot_count(o);
        let mut k: usize = 0;
        let mut more = true;
        while more && k < n
            invariant
                k <= n,
                more ==> self@.empty_slots(o, k as int) == old(self)@.empty_slots(o, 0),
                more ==> n == match self@.object(o) {
                    Some(data) => data.slots().len(),
                    None => 0,
                },
                !more ==> self@ == old(self)@.empty_slots(o, 0),
            decreases n - k,
        {
            self.set_object_slot(o, k, None);
            if self.slot_count(o) != n {
                more = false;
            }
            k += 1;
        }
    }

    /// Awaits the thunk at `place`.
    pub fn await_thunk(&mut self, db: &Db, code: &BirRecord, place: Place) -> (r: Result<
        AwaitResult,
        Fault,
    >)
        requires
            code.wf(db),
            place.index < code.data.tables.places@.len(),
        ensures
            (final(self)@, await_outcome(r)) == old(self)@.await_thunk(db, code, place),
    {
        let value = self.give_place(db, code, place, false)?;
        let span = code.place_span(place);
        let (callee, arguments) = match self.object(value.object) {
            Some(ObjectData::Thunk(thunk)) => (thunk.callee, copy_slots(&thunk.arguments)),
            _ => {
                return Err(Fault { kind: FaultKind::TypeMismatch, span });
            },
        };
        match callee {
            ThunkCallee::Function(f) => {
                if f.index < db.functions.len() && db.functions[f.index].bir.index < db.birs.len() {
                    self.empty_slots(value.object);
                    self.push_frame(Frame::for_call(db, db.functions[f.index].bir, &arguments));
                    Ok(AwaitResult::PushedNewFrame)
                } else {
                    Err(Fault { kind: FaultKind::TypeMismatch, span })
                }
            },
            ThunkCallee::Intrinsic(intrinsic) => {
                self.empty_slots(value.object);
                Ok(AwaitResult::RustThunk(RustThunk { intrinsic, arguments }))
            },
        }
    }
}

} // verus!
