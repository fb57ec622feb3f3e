//! Functions and intrinsics, as the declarations of a program name them.
use vstd::prelude::*;
use crate::bir::Bir;
use crate::db::Db;
use crate::word::Word;

verus! {

/// Handle of a function declared in a [`Db`].
#[derive(Clone, Copy, Debug, PartialEq, Eq, Structural, Hash)]
pub struct Function {
    pub index: usize,
}

/// Whether calling a function runs it at once or yields a thunk to await.
#[derive(Clone, Copy, Debug, PartialEq, Eq, Structural, Hash)]
pub enum Effect {
    Default,
    Async,
}

/// Operations that the host provides.
#[derive(Clone, Copy, Debug, PartialEq, Eq, Structural, Hash)]
pub enum Intrinsic {
    Print,
}

/// What a program declares about one function.
#[derive(Debug)]
pub struct FunctionData {
    pub name: Word,
    pub effect: Effect,
    /// The code of the function's body.
    pub bir: Bir,
}

impl FunctionData {
    pub open spec fn wf(&self, db: &Db) -> bool {
        &&& self.name.index < db.words@.len()
        &&& self.bir.index < db.birs@.len()
    }
}

impl Function {
    pub open spec fn valid(self, db: &Db) -> bool {
        self.index < db.functions@.len()
    }

    pub open spec fn data(self, db: &Db) -> FunctionData {
        db.functions@[self.index as int]
    }

    /// The name of the function.
    pub fn name(self, db: &Db) -> (name: Word)
        requires
            self.valid(db),
        ensures
            name == self.data(db).name,
    {
        db.functions[self.index].name
    }
}

} // verus!
