//! Classes, as the declarations of a program name them.
use vstd::prelude::*;
use crate::db::Db;
use crate::span::{InputFile, Span};
use crate::word::Word;

verus! {

/// Handle of a class declared in a [`Db`].
#[derive(Clone, Copy, Debug, PartialEq, Eq, Structural, Hash)]
pub struct Class {
    pub index: usize,
}

/// Handle of a name within a signature's syntax.
#[derive(Clone, Copy, Debug, PartialEq, Eq, Structural, Hash)]
pub struct SyntaxName {
    pub index: usize,
}

/// The syntax of a declaration's signature: which of its names is the name of
/// the declared item, and where each name stands in the source.
#[derive(Debug)]
pub struct Signature {
    pub name: SyntaxName,
    pub spans: Vec<Span>,
}

/// What a program declares about one class.
#[derive(Debug)]
pub struct ClassData {
    pub name: Word,
    pub input_file: InputFile,
    pub signature_syntax: Signature,
    /// Overall span of the class, including any body.
    pub span: Span,
    /// Names of the fields, in declaration order.
    pub fields: Vec<Word>,
}

impl Signature {
    pub open spec fn wf(&self) -> bool {
        self.name.index < self.spans@.len()
    }
}

impl ClassData {
    pub open spec fn wf(&self, db: &Db) -> bool {
        &&& self.signature_syntax.wf()
        &&& self.name.index < db.words@.len()
        &&& forall|i: int| 0 <= i < self.fields@.len() ==> (#[trigger] self.fields@[i]).index < db.words@.len()
    }
}

impl Class {
    pub open spec fn valid(self, db: &Db) -> bool {
        self.index < db.classes@.len()
    }

    pub open spec fn data(self, db: &Db) -> ClassData {
        db.classes@[self.index as int]
    }

    /// The span of the class's name within its declaration.
    pub fn name_span(self, db: &Db) -> (span: Span)
        requires
            self.valid(db),
            self.data(db).signature_syntax.wf(),
        ensures
            span == self.data(db).signature_syntax.spans@[self.data(db).signature_syntax.name.index as int],
    {
        let signature = &db.classes[self.index].signature_syntax;
        signature.spans[signature.name.index]
    }

    /// The file in which the class is declared.
    pub fn input_file(self, db: &Db) -> (file: InputFile)
        requires
            self.valid(db),
        ensures
            file == self.data(db).input_file,
    {
        db.classes[self.index].input_file
    }

    /// The name of the class.
    pub fn name(self, db: &Db) -> (name: Word)
        requires
            self.valid(db),
        ensures
            name == self.data(db).name,
    {
        db.classes[self.index].name
    }
}

} // verus!
