//! Calls: of a class, which makes an instance; of a function, which pushes a
//! frame or makes a thunk; of an intrinsic, which makes a thunk for the host.
use vstd::prelude::*;
use crate::bir::{BirRecord, ControlPoint, Name, Place, Tables};
use crate::class::Class;
use crate::db::Db;
use crate::fault::{Fault, FaultKind};
use crate::function::{Effect, Function, Intrinsic};
use crate::machine::{Frame, Instance, Machine, ObjectData, Thunk};
use crate::model::{FrameModel, MachineModel, ObjectModel, PermissionData, Slot, ThunkCallee, Value};
use crate::word::Word;

verus! {

/// What a call did.
#[derive(Clone, Copy, Debug, PartialEq, Eq, Structural, Hash)]
pub enum CallResult {
    /// The call is over and returned this value.
    Returned(Value),
    /// The call pushed a frame; its value comes when the frame returns.
    PushedNewFrame,
}

/// Something that can be called.
#[derive(Clone, Copy, Debug, PartialEq, Eq, Structural, Hash)]
pub enum Callee {
    Class(Class),
    Function(Function),
    Intrinsic(Intrinsic),
}

/// What `data` is when it is called, if it can be called.
pub open spec fn callee_of(data: ObjectModel) -> Option<Callee> {
    match data {
        ObjectModel::Class(c) => Some(Callee::Class(c)),
        ObjectModel::Function(f) => Some(Callee::Function(f)),
        ObjectModel::Intrinsic(i) => Some(Callee::Intrinsic(i)),
        _ => None,
    }
}

/// The names of the parameters of `callee`: the fields of a class, the
/// parameters of a function, and one unnamed parameter for printing.  Nothing
/// if the program does not declare the callee.
pub open spec fn parameter_names(db: &Db, callee: Callee) -> Option<Seq<Option<Word>>> {
    match callee {
        Callee::Class(c) => if c.valid(db) {
            Some(Seq::new(c.data(db).fields@.len(), |i: int| Some(c.data(db).fields@[i])))
        } else {
            None
        },
        Callee::Function(f) => if f.valid(db) && f.data(db).bir.valid(db) {
            let data = f.data(db).bir.record(db).data;
            Some(
                Seq::new(
                    data.num_parameters as nat,
                    |i: int|
                        if i < data.tables.local_variables@.len() {
                            data.tables.local_variables@[i].name
                        } else {
                            None
                        },
                ),
            )
        } else {
            None
        },
        Callee::Intrinsic(Intrinsic::Print) => Some(seq![None]),
    }
}

/// Whether `label` may stand before the argument for a parameter called
/// `expected`: there is no label, or it is the name of the parameter.
pub open spec fn label_matches(tables: &Tables, expected: Option<Word>, label: Option<Name>) -> bool {
    match label {
        None => true,
        Some(name) => name.index < tables.names@.len() && expected == Some(
            tables.names@[name.index as int].word,
        ),
    }
}

/// Whether there is one label for each parameter and each label matches.
pub open spec fn labels_match(tables: &Tables, expected: Seq<Option<Word>>, labels: Seq<Option<Name>>) -> bool {
    &&& labels.len() == expected.len()
    &&& forall|i: int| 0 <= i < labels.len() ==> label_matches(tables, #[trigger] expected[i], labels[i])
}

impl MachineModel {
    /// Calls `callee` with `arguments`.
    ///
    /// A class makes an instance with the arguments as its fields, uniquely
    /// owned.  An intrinsic or a function that is to be awaited makes a thunk
    /// that holds the arguments, uniquely owned.  Any other function gets a
    /// new frame with the arguments as its first variables.
    pub open spec fn invoke(self, db: &Db, callee: Callee, arguments: Seq<Slot>) -> (MachineModel, CallResult) {
        match callee {
            Callee::Class(class) => {
                let (m, value) = self.new_value(
                    ObjectModel::Instance { class, fields: arguments },
                    PermissionData::spec_my(),
                );
                (m, CallResult::Returned(value))
            },
            Callee::Function(f) => if f.data(db).effect == Effect::Async {
                let (m, value) = self.new_value(
                    ObjectModel::Thunk { callee: ThunkCallee::Function(f), arguments },
                    PermissionData::spec_my(),
                );
                (m, CallResult::Returned(value))
            } else {
                (
                    self.push_frame(FrameModel::for_call(db, f.data(db).bir, arguments)),
                    CallResult::PushedNewFrame,
                )
            },
            Callee::Intrinsic(i) => {
                let (m, value) = self.new_value(
                    ObjectModel::Thunk { callee: ThunkCallee::Intrinsic(i), arguments },
                    PermissionData::spec_my(),
                );
                (m, CallResult::Returned(value))
            },
        }
    }

    /// Executes the call at the terminator `point`: reads the place
    /// `function`, checks the labels against the parameters of what is found
    /// there, gives the arguments in order and calls.  It is a mismatch of
    /// types to call what cannot be called, or with the wrong number of
    /// arguments or a wrong label.
    pub open spec fn call(
        self,
        db: &Db,
        code: &BirRecord,
        point: ControlPoint,
        function: Place,
        arguments: Seq<Place>,
        labels: Seq<Option<Name>>,
    ) -> (MachineModel, Result<CallResult, Fault>) {
        let (m, r) = self.read_place(db, code, function);
        match r {
            Err(fault) => (m, Err(fault)),
            Ok(object) => match m.object(object) {
                None => (m, Err(Fault { kind: FaultKind::Uninitialized, span: code.spec_place_span(function) })),
                Some(data) => match callee_of(data) {
                    None => (
                        m,
                        Err(Fault { kind: FaultKind::TypeMismatch, span: code.spec_place_span(function) }),
                    ),
                    Some(callee) => match parameter_names(db, callee) {
                        None => (
                            m,
                            Err(
                                Fault {
                                    kind: FaultKind::TypeMismatch,
                                    span: code.spec_place_span(function),
                                },
                            ),
                        ),
                        Some(expected) => if labels_match(&code.data.tables, expected, labels)
                            && arguments.len() == labels.len() {
                            let (m, r) = m.give_places(db, code, arguments, 0, seq![]);
                            match r {
                                Err(fault) => (m, Err(fault)),
                                Ok(given) => {
                                    let (m, result) = m.invoke(db, callee, given);
                                    (m, Ok(result))
                                },
                            }
                        } else {
                            (
                                m,
                                Err(
                                    Fault {
                                        kind: FaultKind::TypeMismatch,
                                        span: code.spec_point_span(point),
                                    },
                                ),
                            )
                        },
                    },
                },
            },
        }
    }
}

/// What `data` is when it is called, if it can be called.
pub fn callee(data: &ObjectData) -> (r: Option<Callee>)
    ensures
        r == callee_of(data@),
{
    match data {
        ObjectData::Class(c) => Some(Callee::Class(*c)),
        ObjectData::Function(f) => Some(Callee::Function(*f)),
        ObjectData::Intrinsic(i) => Some(Callee::Intrinsic(*i)),
        _ => None,
    }
}

/// The names of the parameters of `callee`.
pub fn parameters(db: &Db, callee: Callee) -> (r: Option<Vec<Option<Word>>>)
    ensures
        match r {
            Some(names) => parameter_names(db, callee) == Some(names@),
            None => parameter_names(db, callee) is None,
        },
{
    let mut names: Vec<Option<Word>> = Vec::new();
    match callee {
        Callee::Class(c) => {
            if c.index >= db.classes.len() {
                return None;
            }
            let fields = &db.classes[c.index].fields;
            let mut i: usize = 0;
            while i < fields.len()
                invariant
                    i <= fields@.len(),
                    names@.len() == i,
                    forall|j: int| 0 <= j < i ==> #[trigger] names@[j] == Some(fields@[j]),
                decreases fields@.len() - i,
            {
                names.push(Some(fields[i]));
                i += 1;
            }
            assert(names@ =~= parameter_names(db, callee).unwrap());
        },
        Callee::Function(f) => {
            if f.index >= db.functions.len() {
                return None;
            }
            let bir = db.functions[f.index].bir;
            if bir.index >= db.birs.len() {
                return None;
            }
            let data = &db.birs[bir.index].data;
            let mut i: usize = 0;
            while i < data.num_parameters
                invariant
                    i <= data.num_parameters,
                    names@.len() == i,
                    forall|j: int|
                        0 <= j < i ==> #[trigger] names@[j] == if j
                            < data.tables.local_variables@.len() {
                            data.tables.local_variables@[j].name
                        } else {
                            None::<Word>
                        },
                decreases data.num_parameters - i,
            {
                if i < data.tables.local_variables.len() {
                    names.push(data.tables.local_variables[i].name);
                } else {
                    names.push(None);
                }
                i += 1;
            }
            assert(names@ =~= parameter_names(db, callee).unwrap());
        },
        Callee::Intrinsic(Intrinsic::Print) => {
            names.push(None);
            assert(names@ =~= seq![None::<Word>]);
        },
    }
    Some(names)
}

/// Whether there is one label for each parameter and each label matches.
pub fn check_labels(tables: &Tables, expected: &Vec<Option<Word>>, labels: &Vec<Option<Name>>) -> (r: bool)
    ensures
        r == labels_match(tables, expected@, labels@),
{
    if labels.len() != expected.len() {
        return false;
    }
    let mut i: usize = 0;
    while i < labels.len()
        invariant
            i <= labels@.len(),
            labels@.len() == expected@.len(),
            forall|j: int| 0 <= j < i ==> label_matches(tables, #[trigger] expected@[j], labels@[j]),
        decreases labels@.len() - i,
    {
        let ok = match labels[i] {
            None => true,
            Some(name) => name.index < tables.names.len() && match expected[i] {
                Some(word) => word == tables.names[name.index].word,
                None => false,
            },
        };
        if !ok {
            assert(!label_matches(tables, expected@[i as int], labels@[i as int]));
            return false;
        }
        i += 1;
    }
    true
}

impl Machine {
    /// Calls `callee` with `arguments`.
    pub fn invoke(&mut self, db: &Db, callee: Callee, arguments: Vec<Slot>) -> (r: CallResult)
        requires
            parameter_names(db, callee) is Some,
        ensures
            (final(self)@, r) == old(self)@.invoke(db, callee, arguments@),
    {
        match callee {
            Callee::Class(class) => CallResult::Returned(
                self.new_value(
                    ObjectData::Instance(Instance { class, fields: arguments }),
                    PermissionData::my(),
                ),
            ),
            Callee::Function(f) => {
                let data = &db.functions[f.index];
                if data.effect == Effect::Async {
                    CallResult::Returned(
                        self.new_value(
                            ObjectData::Thunk(Thunk { callee: ThunkCallee::Function(f), arguments }),
                            PermissionData::my(),
                        ),
                    )
                } else {
                    self.push_frame(Frame::for_call(db, data.bir, &arguments));
                    CallResult::PushedNewFrame
                }
            },
            Callee::Intrinsic(i) => CallResult::Returned(
                self.new_value(
                    ObjectData::Thunk(Thunk { callee: ThunkCallee::Intrinsic(i), arguments }),
                    PermissionData::my(),
                ),
            ),
        }
    }

    /// Executes the call at the terminator `point`.
    pub fn call(
        &mut self,
        db: &Db,
        code: &BirRecord,
        point: ControlPoint,
        function: Place,
        arguments: &Vec<Place>,
        labels: &Vec<Option<Name>>,
    ) -> (r: Result<CallResult, Fault>)
        requires
            code.wf(db),
            point.index < code.data.tables.control_points@.len(),
            function.index < code.data.tables.places@.len(),
            crate::bir::places_in_range(arguments@, &code.data.tables),
        ensures
            (final(self)@, r) == old(self)@.call(db, code, point, function, arguments@, labels@),
    {
        let object = self.read_place(db, code, function)?;
        let found = match self.object(object) {
            None => {
                return Err(Fault { kind: FaultKind::Uninitialized, span: code.place_span(function) });
            },
            Some(data) => callee(data),
        };
        let callee = match found {
            None => {
                return Err(Fault { kind: FaultKind::TypeMismatch, span: code.place_span(function) });
            },
            Some(callee) => callee,
        };
        let expected = match parameters(db, callee) {
            None => {
                return Err(Fault { kind: FaultKind::TypeMismatch, span: code.place_span(function) });
            },
            Some(expected) => expected,
        };
        if !(check_labels(&code.data.tables, &expected, labels) && arguments.len() == labels.len()) {
            return Err(Fault { kind: FaultKind::TypeMismatch, span: code.point_span(point) });
        }
        let given = self.give_places(db, code, arguments)?;
        Ok(self.invoke(db, callee, given))
    }
}

} // verus!
