//! Interned strings.
use vstd::prelude::*;
use crate::db::Db;

verus! {

/// Handle of an interned string in a [`Db`].
#[derive(Clone, Copy, Debug, PartialEq, Eq, Structural, Hash)]
pub struct Word {
    pub index: usize,
}

impl Word {
    /// The characters of this word in `db`.
    pub open spec fn text(self, db: &Db) -> Seq<char> {
        db.words@[self.index as int]@
    }

    /// The string this word stands for.
    pub fn as_str<'a>(self, db: &'a Db) -> (s: &'a str)
        requires
            self.index < db.words@.len(),
        ensures
            s@ == self.text(db),
    {
        db.words[self.index].as_str()
    }
}

} // verus!
