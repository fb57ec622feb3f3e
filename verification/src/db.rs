//! The program that the machine runs: its interned words and the classes,
//! functions and code that its declarations name.
use vstd::prelude::*;
use crate::bir::BirRecord;
use crate::class::ClassData;
use crate::function::FunctionData;
use crate::word::Word;

verus! {

#[derive(Debug)]
pub struct Db {
    pub words: Vec<String>,
    pub classes: Vec<ClassData>,
    pub functions: Vec<FunctionData>,
    pub birs: Vec<BirRecord>,
}

impl Db {
    /// Every handle stored in the program refers to something stored in the
    /// program, and no string is interned twice.
    pub open spec fn wf(&self) -> bool {
        &&& forall|i: int, j: int|
            0 <= i < j < self.words@.len() ==> (#[trigger] self.words@[i])@ != (
            #[trigger] self.words@[j])@
        &&& forall|i: int| 0 <= i < self.classes@.len() ==> (#[trigger] self.classes@[i]).wf(self)
        &&& forall|i: int| 0 <= i < self.functions@.len() ==> (#[trigger] self.functions@[i]).wf(self)
        &&& forall|i: int| 0 <= i < self.birs@.len() ==> (#[trigger] self.birs@[i]).wf(self)
    }

    /// An empty program.
    pub fn new() -> (db: Db)
        ensures
            db.words@.len() == 0,
            db.classes@.len() == 0,
            db.functions@.len() == 0,
            db.birs@.len() == 0,
            db.wf(),
    {
        Db { words: Vec::new(), classes: Vec::new(), functions: Vec::new(), birs: Vec::new() }
    }

    /// The word that stands for `text`, if it has been interned.
    pub open spec fn lookup_spec(&self, text: Seq<char>) -> Option<Word> {
        let i = first_index_of(self.words@, text, 0);
        if i < self.words@.len() {
            Some(Word { index: i as usize })
        } else {
            None
        }
    }

    /// The word for `text`, if it has been interned.
    pub fn lookup(&self, text: &str) -> (r: Option<Word>)
        ensures
            r == self.lookup_spec(text@),
            r matches Some(w) ==> w.index < self.words@.len() && w.text(self) == text@,
            r is None ==> forall|j: int| 0 <= j < self.words@.len() ==> (#[trigger] self.words@[j])@ != text@,
    {
        let mut i: usize = 0;
        while i < self.words.len()
            invariant
                i <= self.words@.len(),
                forall|j: int| 0 <= j < i ==> (#[trigger] self.words@[j])@ != text@,
                first_index_of(self.words@, text@, 0) == first_index_of(self.words@, text@, i as int),
            decreases self.words@.len() - i,
        {
            if str_eq(self.words[i].as_str(), text) {
                return Some(Word { index: i });
            }
            i += 1;
        }
        None
    }

    /// Interns `text`: returns the word that stands for it, adding it to the
    /// end of the words if it was not there.
    pub fn intern(&mut self, text: &str) -> (w: Word)
        ensures
            w.index < final(self).words@.len(),
            w.text(final(self)) == text@,
            final(self).classes == old(self).classes,
            final(self).functions == old(self).functions,
            final(self).birs == old(self).birs,
            match old(self).lookup_spec(text@) {
                Some(found) => w == found && final(self).words == old(self).words,
                None => {
                    &&& w.index == old(self).words@.len()
                    &&& final(self).words@.len() == old(self).words@.len() + 1
                    &&& forall|j: int|
                        0 <= j < old(self).words@.len() ==> final(self).words@[j] == old(self).words@[j]
                },
            },
    {
        match self.lookup(text) {
            Some(w) => w,
            None => {
                let w = Word { index: self.words.len() };
                self.words.push(String::from_str(text));
                w
            },
        }
    }
}

/// The least index `i >= from` at which `words[i]` has the characters `text`,
/// or the length of `words` if there is none.
pub open spec fn first_index_of(words: Seq<String>, text: Seq<char>, from: int) -> int
    decreases words.len() - from,
{
    if from < 0 || from >= words.len() {
        words.len() as int
    } else if words[from]@ == text {
        from
    } else {
        first_index_of(words, text, from + 1)
    }
}

/// Whether two strings have the same characters.
pub fn str_eq(a: &str, b: &str) -> (r: bool)
    ensures
        r == (a@ == b@),
{
    let n = a.unicode_len();
    if n != b.unicode_len() {
        return false;
    }
    let mut i: usize = 0;
    while i < n
        invariant
            i <= n,
            n == a@.len(),
            n == b@.len(),
            forall|j: int| 0 <= j < i ==> a@[j] == b@[j],
        decreases n - i,
    {
        if a.get_char(i) != b.get_char(i) {
            return false;
        }
        i += 1;
    }
    assert(a@ =~= b@);
    true
}

} // verus!
